//! The markdown routing pack.
//!
//! `vouch describe --all --md` emits the registry preamble plus every node's routing context
//! as markdown. A user pastes it into an agent's instructions file, or an agent runs the command at session
//! start. That is the entire integration story — no protocol, and no config file format for
//! anyone to learn.
//!
//! What goes in is *advisory* material: purpose, when to reach for a node, when not to, what
//! its parameters mean, and worked examples. What stays out is the contracts. They are
//! enforcing rather than advisory, and a caller does not need to read a precondition to make a
//! good call — if they get it wrong the refusal will tell them, in words written for someone
//! who can act on them.

use crate::exec::trim_end;
use crate::json::{render, Json};
use crate::manifest::{Node, Param};
use crate::registry::Preamble;
use crate::schema::{declared_types, deref_spec, MAX_HOPS};
use crate::text::{join_spec, owned, push_char, push_str, string_views};
use vstd::prelude::*;

verus! {

/// How to actually call these. A pack that describes nodes without saying how to invoke one is
/// not an integration story, and the exit-code families are the part a caller most needs to
/// act on differently.
pub const USAGE: &'static str = "Call these with `vouch call <node> --input '{...}'`. The result is a JSON object on stdout.
Everything else — including the reason for any failure — goes to stderr.

Every call ends in one of three things, and they call for different responses:

- **exit 0** — the value satisfied the node's contracts. Use it. Do not recompute anything
  from it; quote its figures as they are.
- **exit 11, 14 or 15** — a refusal. No answer is available from this node. The reason is
  written to be acted on: fix the arguments, call a different node, or tell the user the
  answer does not exist. Never substitute your own number.
- **exit 10, 12, 13, 20 or 21** — a caller error or a broken node. Correct the input if it
  was rejected; otherwise report the node as broken rather than working around it.

A refusal is a good outcome when it is the true one. No answer beats a wrong one.
";

/// Each line as a bullet: `- line`, one per line.
pub open spec fn bullets(lines: Seq<Seq<char>>) -> Seq<char>
    decreases lines.len(),
{
    if lines.len() == 0 {
        seq![]
    } else {
        bullets(lines.drop_last()) + "- "@ + lines.last() + "\n"@
    }
}

/// Each line on a line of its own.
pub open spec fn lines_text(lines: Seq<Seq<char>>) -> Seq<char>
    decreases lines.len(),
{
    if lines.len() == 0 {
        seq![]
    } else {
        lines_text(lines.drop_last()) + lines.last() + "\n"@
    }
}

/// A headed block of bullets, or nothing when there are none.
pub open spec fn headed(heading: Seq<char>, body: Seq<char>, present: bool) -> Seq<char> {
    if present {
        "**"@ + heading + "**\n\n"@ + body + "\n"@
    } else {
        seq![]
    }
}

/// The names a schema requires.
pub open spec fn required_names(schema: Json) -> Seq<Seq<char>> {
    match schema.get_spec("required"@) {
        Some(Json::Array(names)) => crate::schema::string_items(names@),
        _ => seq![],
    }
}

/// The guidance the author wrote for a parameter, if any.
pub open spec fn param_guidance(params: Seq<(String, Param)>, name: Seq<char>) -> Option<Seq<char>>
    decreases params.len(),
{
    if params.len() == 0 {
        None
    } else if params[0].0@ == name {
        Some(params[0].1.guidance@)
    } else {
        param_guidance(params.drop_first(), name)
    }
}

/// One input field's line: name, type, whether it is required, and the author's guidance —
/// from the parameter, or else the schema's own description.
pub open spec fn parameter_line(node: Node, name: Seq<char>, property: Json) -> Seq<char> {
    let schema = node.input_schema;
    let p = deref_spec(property, schema, MAX_HOPS as nat);
    let types = declared_types(p);
    let kind = if types.len() == 0 {
        "any"@
    } else {
        join_spec(types, " or "@)
    };
    let obligation = if required_names(schema).contains(name) {
        "required"@
    } else {
        "optional"@
    };
    let guidance = match param_guidance(node.manifest.params@, name) {
        Some(g) => Some(g),
        None => match p.get_spec("description"@) {
            Some(Json::Str(d)) => Some(d@),
            _ => None,
        },
    };
    "- `"@ + name + "` ("@ + kind + ", "@ + obligation + ")"@ + match guidance {
        Some(text) => " — "@ + text,
        None => seq![],
    }
}

/// Whether the schema's `required` array holds the string `name`.
pub open spec fn schema_requires(schema: Json, name: Seq<char>) -> bool {
    schema.get_spec("required"@) matches Some(Json::Array(names)) && exists|i: int|
        0 <= i < names@.len() && (#[trigger] names@[i] matches Json::Str(s) && s@ == name)
}

proof fn lemma_string_items_contains(items: Seq<Json>, name: Seq<char>)
    ensures
        crate::schema::string_items(items).contains(name) <==> exists|i: int|
            0 <= i < items.len() && (#[trigger] items[i] matches Json::Str(s) && s@ == name),
    decreases items.len(),
{
    let found = crate::schema::string_items(items);
    if items.len() > 0 {
        let init = items.drop_last();
        lemma_string_items_contains(init, name);
        let prev = crate::schema::string_items(init);
        let last = match items.last() {
            Json::Str(s) => seq![s@],
            _ => seq![],
        };
        assert(found == prev + last);
        if found.contains(name) {
            let j = choose|j: int| 0 <= j < found.len() && found[j] == name;
            if j < prev.len() {
                assert(prev[j] == name);
                assert(prev.contains(name));
                let i = choose|i: int| 0 <= i < init.len() && (#[trigger] init[i] matches Json::Str(s) && s@ == name);
                assert(items[i] == init[i]);
            } else {
                assert(items[items.len() - 1] == items.last());
            }
        }
        if exists|i: int| 0 <= i < items.len() && (#[trigger] items[i] matches Json::Str(s) && s@ == name) {
            let i = choose|i: int| 0 <= i < items.len() && (#[trigger] items[i] matches Json::Str(s) && s@ == name);
            if i < init.len() {
                assert(init[i] == items[i]);
                assert(prev.contains(name));
                let j = choose|j: int| 0 <= j < prev.len() && prev[j] == name;
                assert(found[j] == name);
            } else {
                assert(found[found.len() - 1] == name);
            }
        }
    }
}

/// A parameter's line gives its name, its type, and then `required` exactly when the input
/// schema's `required` array names it, `optional` otherwise; whatever guidance follows comes
/// after the closing bracket.
pub proof fn a_parameter_is_required_exactly_when_the_schema_says_so(node: Node, k: int)
    requires
        node.input_schema.get_spec("properties"@) matches Some(Json::Object(props)) && 0 <= k < props@.len(),
    ensures
        ({
            let props = node.input_schema.get_spec("properties"@)->0->Object_0@;
            let name = props[k].0@;
            let p = deref_spec(props[k].1, node.input_schema, MAX_HOPS as nat);
            let kind = if declared_types(p).len() == 0 {
                "any"@
            } else {
                join_spec(declared_types(p), " or "@)
            };
            let head = "- `"@ + name + "` ("@ + kind + ", "@ + (if schema_requires(node.input_schema, name) {
                "required"@
            } else {
                "optional"@
            }) + ")"@;
            head.len() <= parameter_lines(node)[k].len() && parameter_lines(node)[k].subrange(0, head.len() as int) == head
        }),
{
    let props = node.input_schema.get_spec("properties"@)->0->Object_0@;
    let name = props[k].0@;
    let items = match node.input_schema.get_spec("required"@) {
        Some(Json::Array(names)) => names@,
        _ => seq![],
    };
    lemma_string_items_contains(items, name);
    let line = parameter_lines(node)[k];
    let p = deref_spec(props[k].1, node.input_schema, MAX_HOPS as nat);
    let guidance = match param_guidance(node.manifest.params@, name) {
        Some(g) => Some(g),
        None => match p.get_spec("description"@) {
            Some(Json::Str(d)) => Some(d@),
            _ => None,
        },
    };
    let rest = match guidance {
        Some(text) => " — "@ + text,
        None => seq![],
    };
    assert(line == parameter_line(node, name, props[k].1));
    let kind = if declared_types(p).len() == 0 {
        "any"@
    } else {
        join_spec(declared_types(p), " or "@)
    };
    let head = "- `"@ + name + "` ("@ + kind + ", "@ + (if schema_requires(node.input_schema, name) {
        "required"@
    } else {
        "optional"@
    }) + ")"@;
    assert(line == head + rest);
    assert(line.subrange(0, head.len() as int) =~= head);
}

/// One line per input field, in the schema's order.
pub open spec fn parameter_lines(node: Node) -> Seq<Seq<char>> {
    match node.input_schema.get_spec("properties"@) {
        Some(Json::Object(props)) => props@.map_values(
            |f: (String, Json)| parameter_line(node, f.0@, f.1),
        ),
        _ => seq![],
    }
}

/// A worked example: the question, then the call that answers it.
pub open spec fn example_text(node_name: Seq<char>, ask: Seq<char>, call: Json) -> Seq<char> {
    "- \""@ + ask + "\"\n"@ + "  ```\n  vouch call "@ + node_name + " --input '"@ + render(call)
        + "'\n  ```\n"@
}

pub open spec fn examples_text(node: Node, i: int) -> Seq<char>
    decreases node.manifest.examples@.len() - i,
{
    if i < 0 || i >= node.manifest.examples@.len() {
        seq![]
    } else {
        example_text(
            node.manifest.name@,
            node.manifest.examples@[i].ask@,
            node.manifest.examples@[i].call,
        ) + examples_text(node, i + 1)
    }
}

/// One node's section of the pack.
pub open spec fn section_text(node: Node) -> Seq<char> {
    let m = node.manifest;
    "## "@ + m.name@ + "\n\n"@ + m.purpose@ + "\n\n"@ + headed(
        "Use when"@,
        bullets(string_views(m.use_when@)),
        m.use_when@.len() > 0,
    ) + headed("Not for"@, bullets(string_views(m.not_for@)), m.not_for@.len() > 0) + headed(
        "Parameters"@,
        lines_text(parameter_lines(node)),
        parameter_lines(node).len() > 0,
    ) + headed("Examples"@, examples_text(node, 0), m.examples@.len() > 0)
}

/// The preamble's own part: its description and its notes.
pub open spec fn preamble_text(p: Preamble) -> Seq<char> {
    (match p.description {
        Some(d) => d@ + "\n\n"@,
        None => seq![],
    }) + if p.notes@.len() > 0 {
        bullets(string_views(p.notes@)) + "\n"@
    } else {
        seq![]
    }
}

/// The node sections, each set off by a blank line.
pub open spec fn sections_text(nodes: Seq<Node>) -> Seq<char>
    decreases nodes.len(),
{
    if nodes.len() == 0 {
        seq![]
    } else {
        sections_text(nodes.drop_last()) + "\n"@ + trim_end(section_text(nodes.last())) + "\n"@
    }
}

/// The whole pack: a title (the preamble's name, or the collection's), the preamble, how to
/// call, then one section per node.
pub open spec fn pack_text(collection: Seq<char>, preamble: Option<Preamble>, nodes: Seq<Node>) -> Seq<char> {
    let title = match preamble {
        Some(p) => match p.name {
            Some(n) => n@,
            None => collection,
        },
        None => collection,
    };
    "# "@ + title + "\n\n"@ + (match preamble {
        Some(p) => preamble_text(p),
        None => seq![],
    }) + USAGE@ + if nodes.len() == 0 {
        "\nThis collection currently has no callable nodes.\n"@
    } else {
        sections_text(nodes)
    }
}

fn push_bullets(out: &mut String, lines: &Vec<String>)
    ensures
        final(out)@ == old(out)@ + bullets(string_views(lines@)),
{
    let mut i: usize = 0;
    while i < lines.len()
        invariant
            i <= lines@.len(),
            out@ == old(out)@ + bullets(string_views(lines@.take(i as int))),
        decreases lines@.len() - i,
    {
        push_str(out, "- ");
        push_str(out, lines[i].as_str());
        push_str(out, "\n");
        proof {
            assert(string_views(lines@.take(i + 1)).drop_last() =~= string_views(lines@.take(i as int)));
            assert(out@ =~= old(out)@ + bullets(string_views(lines@.take(i + 1))));
        }
        i = i + 1;
    }
    assert(lines@.take(i as int) =~= lines@);
}

/// The guidance the author wrote for a parameter.
pub(crate) fn guidance_for<'a>(params: &'a Vec<(String, Param)>, name: &str) -> (r: Option<&'a String>)
    ensures
        match r {
            Some(g) => param_guidance(params@, name@) == Some(g@),
            None => param_guidance(params@, name@) is None,
        },
{
    let mut i: usize = 0;
    assert(params@.skip(0) =~= params@);
    while i < params.len()
        invariant
            i <= params@.len(),
            param_guidance(params@, name@) == param_guidance(params@.skip(i as int), name@),
        decreases params@.len() - i,
    {
        proof {
            assert(params@.skip(i as int).drop_first() =~= params@.skip(i + 1));
            assert(params@.skip(i as int)[0] == params@[i as int]);
        }
        if crate::text::str_eq(params[i].0.as_str(), name) {
            return Some(&params[i].1.guidance);
        }
        i = i + 1;
    }
    assert(params@.skip(i as int) =~= seq![]);
    None
}

fn contains_name(names: &Vec<String>, name: &str) -> (r: bool)
    ensures
        r == string_views(names@).contains(name@),
{
    let mut i: usize = 0;
    while i < names.len()
        invariant
            i <= names@.len(),
            forall|k: int| 0 <= k < i ==> (#[trigger] names@[k])@ != name@,
        decreases names@.len() - i,
    {
        if crate::text::str_eq(names[i].as_str(), name) {
            assert(string_views(names@)[i as int] == name@);
            return true;
        }
        i = i + 1;
    }
    proof {
        if string_views(names@).contains(name@) {
            let k = choose|k: int| 0 <= k < string_views(names@).len() && string_views(names@)[k] == name@;
            assert(names@[k]@ == name@);
        }
    }
    false
}

/// The names the input schema requires.
fn required_list(schema: &Json) -> (r: Vec<String>)
    ensures
        string_views(r@) == required_names(*schema),
{
    let mut out: Vec<String> = Vec::new();
    match schema.get("required") {
        Some(Json::Array(names)) => {
            let mut k: usize = 0;
            while k < names.len()
                invariant
                    k <= names@.len(),
                    string_views(out@) == crate::schema::string_items(names@.take(k as int)),
                decreases names@.len() - k,
            {
                proof {
                    assert(names@.take(k + 1).drop_last() =~= names@.take(k as int));
                }
                if let Json::Str(t) = &names[k] {
                    out.push(t.clone());
                    assert(string_views(out@) =~= string_views(out@.drop_last()).push(t@));
                }
                k = k + 1;
            }
            assert(names@.take(k as int) =~= names@);
        },
        _ => {
            assert(string_views(out@) =~= seq![]);
        },
    }
    out
}

/// One line per input field: name, type, whether it is required, and the author's guidance.
///
/// The full JSON Schema is deliberately not reproduced. A caller needs to know that
/// `soul_level` is a required integer and what it means; the rest is noise in a context
/// window, and `describe <node> --json` has it for anyone who needs more.
pub fn parameters(node: &Node) -> (r: Vec<String>)
    ensures
        string_views(r@) == parameter_lines(*node),
{
    let schema = &node.input_schema;
    let props = match schema.get("properties") {
        Some(Json::Object(props)) => props,
        _ => {
            let r: Vec<String> = Vec::new();
            assert(string_views(r@) =~= parameter_lines(*node));
            return r;
        },
    };
    let required = required_list(schema);
    let mut out: Vec<String> = Vec::new();
    let mut i: usize = 0;
    while i < props.len()
        invariant
            i <= props@.len(),
            node.input_schema.get_spec("properties"@) == Some(Json::Object(*props)),
            *schema == node.input_schema,
            string_views(required@) == required_names(node.input_schema),
            string_views(out@) == props@.take(i as int).map_values(
                |f: (String, Json)| parameter_line(*node, f.0@, f.1),
            ),
        decreases props@.len() - i,
    {
        let name = props[i].0.as_str();
        let property = crate::schema::deref(&props[i].1, schema);
        let types = crate::schema::types(property);
        let kind = if types.len() == 0 {
            owned("any")
        } else {
            crate::text::join(&types, " or ")
        };
        let mut line = owned("- `");
        push_str(&mut line, name);
        push_str(&mut line, "` (");
        push_str(&mut line, kind.as_str());
        push_str(&mut line, ", ");
        push_str(&mut line, if contains_name(&required, name) { "required" } else { "optional" });
        push_str(&mut line, ")");
        match guidance_for(&node.manifest.params, name) {
            Some(g) => {
                push_str(&mut line, " — ");
                push_str(&mut line, g.as_str());
            },
            None => match property.get("description") {
                Some(Json::Str(d)) => {
                    push_str(&mut line, " — ");
                    push_str(&mut line, d.as_str());
                },
                _ => {},
            },
        }
        proof {
            assert(line@ =~= parameter_line(*node, props@[i as int].0@, props@[i as int].1));
        }
        out.push(line);
        proof {
            assert(props@.take(i + 1).map_values(|f: (String, Json)| parameter_line(*node, f.0@, f.1)) =~= props@.take(
                i as int,
            ).map_values(|f: (String, Json)| parameter_line(*node, f.0@, f.1)).push(line@));
            assert(string_views(out@) =~= string_views(out@.drop_last()).push(line@));
        }
        i = i + 1;
    }
    assert(props@.take(i as int) =~= props@);
    out
}


/// Appends `s` without the white space at its end.
fn push_trim_end(out: &mut String, s: &str)
    ensures
        final(out)@ == old(out)@ + trim_end(s@),
{
    let all = crate::text::chars_of(s);
    let mut end = all.len();
    proof {
        assert(all@.subrange(0, end as int) =~= all@);
    }
    while end > 0 && crate::text::char_is_white_space(all[end - 1])
        invariant
            end <= all@.len(),
            trim_end(s@) == trim_end(all@.subrange(0, end as int)),
            all@ == s@,
        decreases end,
    {
        proof {
            assert(all@.subrange(0, end as int).drop_last() =~= all@.subrange(0, end - 1));
        }
        end = end - 1;
    }
    let head = crate::text::string_of(&all, 0, end);
    push_str(out, head.as_str());
}

fn push_headed(out: &mut String, heading: &str, body: &str, present: bool)
    ensures
        final(out)@ == old(out)@ + headed(heading@, body@, present),
{
    if present {
        push_str(out, "**");
        push_str(out, heading);
        push_str(out, "**\n\n");
        push_str(out, body);
        push_str(out, "\n");
        assert(final(out)@ =~= old(out)@ + headed(heading@, body@, present));
    } else {
        assert(old(out)@ + headed(heading@, body@, present) =~= old(out)@);
    }
}

/// One node's section of the pack: name, purpose, when to use it and when not to, its
/// parameters and its worked examples.
pub fn section(node: &Node) -> (r: String)
    ensures
        r@ == section_text(*node),
{
    let m = &node.manifest;
    let mut out = owned("## ");
    push_str(&mut out, m.name.as_str());
    push_str(&mut out, "\n\n");
    push_str(&mut out, m.purpose.as_str());
    push_str(&mut out, "\n\n");
    let mut uses = String::new();
    push_bullets(&mut uses, &m.use_when);
    push_headed(&mut out, "Use when", uses.as_str(), m.use_when.len() > 0);
    let mut nots = String::new();
    push_bullets(&mut nots, &m.not_for);
    push_headed(&mut out, "Not for", nots.as_str(), m.not_for.len() > 0);
    let lines = parameters(node);
    let mut params = String::new();
    let mut i: usize = 0;
    while i < lines.len()
        invariant
            i <= lines@.len(),
            params@ == lines_text(string_views(lines@.take(i as int))),
        decreases lines@.len() - i,
    {
        push_str(&mut params, lines[i].as_str());
        push_str(&mut params, "\n");
        proof {
            assert(string_views(lines@.take(i + 1)).drop_last() =~= string_views(lines@.take(i as int)));
            assert(params@ =~= lines_text(string_views(lines@.take(i + 1))));
        }
        i = i + 1;
    }
    assert(lines@.take(i as int) =~= lines@);
    push_headed(&mut out, "Parameters", params.as_str(), lines.len() > 0);
    let mut examples = String::new();
    let mut k: usize = 0;
    while k < m.examples.len()
        invariant
            k <= m.examples@.len(),
            *m == node.manifest,
            examples@ + examples_text(*node, k as int) == examples_text(*node, 0),
        decreases m.examples@.len() - k,
    {
        let ghost before = examples@;
        let e = &m.examples[k];
        push_str(&mut examples, "- \"");
        push_str(&mut examples, e.ask.as_str());
        push_str(&mut examples, "\"\n");
        push_str(&mut examples, "  ```\n  vouch call ");
        push_str(&mut examples, m.name.as_str());
        push_str(&mut examples, " --input '");
        let call = e.call.to_text();
        push_str(&mut examples, call.as_str());
        push_str(&mut examples, "'\n  ```\n");
        proof {
            assert(examples@ + examples_text(*node, k + 1) =~= before + examples_text(*node, k as int));
        }
        k = k + 1;
    }
    assert(examples@ + examples_text(*node, k as int) =~= examples@);
    push_headed(&mut out, "Examples", examples.as_str(), m.examples.len() > 0);
    assert(out@ =~= section_text(*node));
    out
}

/// The whole pack: preamble, usage, then one section per node.
pub fn pack(collection: &str, preamble: Option<&Preamble>, nodes: &[Node]) -> (r: String)
    ensures
        r@ == pack_text(collection@, match preamble { Some(p) => Some(*p), None => None }, nodes@),
{
    let mut out = owned("# ");
    let title = match preamble {
        Some(p) => match &p.name {
            Some(n) => n.as_str(),
            None => collection,
        },
        None => collection,
    };
    push_str(&mut out, title);
    push_str(&mut out, "\n\n");
    let ghost head = out@;
    match preamble {
        Some(p) => {
            match &p.description {
                Some(d) => {
                    push_str(&mut out, d.as_str());
                    push_str(&mut out, "\n\n");
                },
                None => {},
            }
            if p.notes.len() > 0 {
                push_bullets(&mut out, &p.notes);
                push_str(&mut out, "\n");
            }
            assert(out@ =~= head + preamble_text(*p));
        },
        None => {},
    }
    push_str(&mut out, USAGE);
    if nodes.len() == 0 {
        push_str(&mut out, "\nThis collection currently has no callable nodes.\n");
        assert(out@ =~= pack_text(collection@, match preamble { Some(p) => Some(*p), None => None }, nodes@));
        return out;
    }
    let ghost base = out@;
    let mut i: usize = 0;
    proof {
        assert(nodes@.take(0) =~= seq![]);
    }
    while i < nodes.len()
        invariant
            i <= nodes@.len(),
            out@ == base + sections_text(nodes@.take(i as int)),
        decreases nodes@.len() - i,
    {
        push_str(&mut out, "\n");
        let text = section(&nodes[i]);
        push_trim_end(&mut out, text.as_str());
        push_str(&mut out, "\n");
        proof {
            assert(nodes@.take(i + 1).drop_last() =~= nodes@.take(i as int));
            assert(out@ =~= base + sections_text(nodes@.take(i + 1)));
        }
        i = i + 1;
    }
    assert(nodes@.take(i as int) =~= nodes@);
    assert(out@ =~= pack_text(collection@, match preamble { Some(p) => Some(*p), None => None }, nodes@));
    out
}

} // verus!
