//! The collection: where it lives, what it says about itself, and the contracts it applies to
//! every node.

use crate::contracts::{cel_parse_problem, Contract};
use crate::error::{Outcome, VouchError};
use crate::json::Json;
use crate::manifest::Node;
use crate::text::{owned, push_str, string_views};
use vstd::prelude::*;

verus! {

/// A collection, by the directory it lives in.
#[derive(Debug)]
pub struct Registry {
    pub root: String,
}

/// Collection-level context.
///
/// Per-node `use_when` and `not_for` cannot say what is true of the *set*: what the collection
/// covers as a whole, and how to disambiguate nodes that overlap. Every field is optional, and
/// so is the file.
#[derive(Debug)]
pub struct Preamble {
    pub name: Option<String>,
    pub description: Option<String>,
    pub notes: Vec<String>,
    /// Contracts the whole collection makes, rather than one node.
    pub requires: Vec<Shared>,
    pub ensures: Vec<Shared>,
}

/// A contract stated once and applied to every node that takes the property it is about.
///
/// `when` names the property, in the object the contract inspects: a `[[requires]]` attaches
/// to every node whose **input** schema declares it, a `[[ensures]]` to every node whose
/// **output** schema does. Each is evaluated only when that property is actually present — an
/// optional one left out would otherwise make the expression unevaluable, which fails closed
/// and refuses a perfectly legal call.
#[derive(Debug)]
pub struct Shared {
    pub when: String,
    pub expr: String,
    pub message: Option<String>,
}

impl Preamble {
    /// A preamble that says nothing.
    pub fn empty() -> (p: Preamble)
        ensures
            p.name is None,
            p.description is None,
            p.notes@.len() == 0,
            p.requires@.len() == 0,
            p.ensures@.len() == 0,
    {
        Preamble {
            name: None,
            description: None,
            notes: Vec::new(),
            requires: Vec::new(),
            ensures: Vec::new(),
        }
    }
}

/// The message when no directory from `start` up holds a collection.
pub open spec fn not_found_message(start: Seq<char>) -> Seq<char> {
    "no vouch project found in "@ + start
        + " or any parent directory (looking for a `nodes/` or `.vouch/` directory)"@
}

impl Registry {
    /// The project root: the first of `ancestors` (the start directory, then each parent in
    /// turn) that holds a `nodes/` or a `.vouch/` directory, as the flag beside it says. So the
    /// command line works from anywhere inside a project.
    pub fn discover(start: &str, ancestors: &Vec<(String, bool)>) -> (r: Result<Registry, VouchError>)
        ensures
            match r {
                Ok(reg) => exists|k: int|
                    0 <= k < ancestors@.len() && (#[trigger] ancestors@[k]).1 && reg.root@ == ancestors@[k].0@
                        && forall|m: int| 0 <= m < k ==> !(#[trigger] ancestors@[m]).1,
                Err(e) => (forall|k: int| 0 <= k < ancestors@.len() ==> !(#[trigger] ancestors@[k]).1)
                    && e.outcome == Outcome::Error && e.code == crate::error::ERROR && e.reason@ == not_found_message(start@),
            },
    {
        let mut k: usize = 0;
        while k < ancestors.len()
            invariant
                k <= ancestors@.len(),
                forall|m: int| 0 <= m < k ==> !(#[trigger] ancestors@[m]).1,
            decreases ancestors@.len() - k,
        {
            if ancestors[k].1 {
                return Ok(Registry { root: ancestors[k].0.clone() });
            }
            k = k + 1;
        }
        let mut m = owned("no vouch project found in ");
        push_str(&mut m, start);
        push_str(&mut m, " or any parent directory (looking for a `nodes/` or `.vouch/` directory)");
        Err(VouchError::error(m))
    }

    /// Where the nodes live.
    pub fn nodes_dir(&self) -> (r: String)
        ensures
            r@ == self.root@ + "/nodes"@,
    {
        let mut r = self.root.clone();
        push_str(&mut r, "/nodes");
        r
    }

    /// Where the collection's own description lives.
    pub fn preamble_path(&self) -> (r: String)
        ensures
            r@ == self.root@ + "/.vouch/registry.toml"@,
    {
        let mut r = self.root.clone();
        push_str(&mut r, "/.vouch/registry.toml");
        r
    }
}

/// The message for a node name that is not in the collection, naming the nodes that are.
pub open spec fn unknown_node_message(name: Seq<char>, known: Seq<Seq<char>>) -> Seq<char> {
    "no node named '"@ + name + "'; "@ + if known.len() == 0 {
        "the collection has no nodes"@
    } else {
        "known nodes: "@ + crate::text::join_spec(known, ", "@)
    }
}

/// A node name that is not in the collection.
pub fn unknown_node(name: &str, known: &Vec<String>) -> (e: VouchError)
    ensures
        e.outcome == Outcome::Error && e.code == crate::error::ERROR,
        e.reason@ == unknown_node_message(name@, string_views(known@)),
{
    let mut m = owned("no node named '");
    push_str(&mut m, name);
    push_str(&mut m, "'; ");
    if known.len() == 0 {
        push_str(&mut m, "the collection has no nodes");
    } else {
        push_str(&mut m, "known nodes: ");
        let listed = crate::text::join(known, ", ");
        push_str(&mut m, listed.as_str());
    }
    VouchError::error(m)
}

/// The directory name is the routing key an agent uses; a manifest that names itself
/// otherwise would make `describe` and `call` disagree about what to type.
pub fn check_name(node: &Node, name: &str) -> (r: Result<(), VouchError>)
    ensures
        match r {
            Ok(()) => node.manifest.name@ == name@,
            Err(e) => node.manifest.name@ != name@ && e.outcome == Outcome::Error && e.code == crate::error::ERROR && e.reason@
                == "node in nodes/"@ + name@ + "/ declares name '"@ + node.manifest.name@
                + "'; the manifest name must match its directory"@,
        },
{
    if crate::text::str_eq(node.manifest.name.as_str(), name) {
        return Ok(());
    }
    let mut m = owned("node in nodes/");
    push_str(&mut m, name);
    push_str(&mut m, "/ declares name '");
    push_str(&mut m, node.manifest.name.as_str());
    push_str(&mut m, "'; the manifest name must match its directory");
    Err(VouchError::error(m))
}

// ------------------------------------------------------------------- shared contracts

/// Whether a schema declares the property `name`.
pub open spec fn declares(schema: Json, name: Seq<char>) -> bool {
    match schema.get_spec("properties"@) {
        Some(props) => props.get_spec(name) is Some,
        None => false,
    }
}

/// A shared contract's expression, scoped to the property's presence in `object`: an
/// optional property left out cannot turn a collection-wide rule into a refusal of a legal
/// call.
pub open spec fn scoped_source(shared: Shared, object: Seq<char>) -> Seq<char> {
    "!has("@ + object + "."@ + shared.when@ + ") || ("@ + shared.expr@ + ")"@
}

/// The shared contracts of `shared[i..]` that apply to a schema, scoped to `object`.
pub open spec fn applicable(shared: Seq<Shared>, schema: Json, object: Seq<char>, i: int) -> Seq<Seq<char>>
    decreases shared.len() - i,
{
    if i < 0 || i >= shared.len() {
        seq![]
    } else {
        (if declares(schema, shared[i].when@) {
            seq![scoped_source(shared[i], object)]
        } else {
            seq![]
        }) + applicable(shared, schema, object, i + 1)
    }
}

fn declares_property(schema: &Json, name: &str) -> (r: bool)
    ensures
        r == declares(*schema, name@),
{
    match schema.get("properties") {
        Some(props) => props.get(name).is_some(),
        None => false,
    }
}

/// Whether the shared contract at `j` applies to `schema` and its scoped source compiles.
pub open spec fn shared_compiles(shared: Seq<Shared>, schema: Json, object: Seq<char>, j: int) -> bool {
    declares(schema, shared[j].when@) ==> cel_parse_problem(scoped_source(shared[j], object)) is None
}

/// The error for the first shared contract that applies to `schema` and does not compile.
pub open spec fn shared_failure(shared: Seq<Shared>, schema: Json, object: Seq<char>, e: VouchError) -> bool {
    exists|j: int|
        0 <= j < shared.len() && declares(schema, shared[j].when@) && (forall|m: int|
            0 <= m < j ==> #[trigger] shared_compiles(shared, schema, object, m)) && (cel_parse_problem(
            scoped_source(#[trigger] shared[j], object),
        ) matches Some(p) && e.reason@ == "cannot compile the collection contract on `"@ + shared[j].when@
            + "`: "@ + p)
}

/// Compiles the shared contracts that apply to `schema`, in order.
fn compile_shared(shared: &Vec<Shared>, schema: &Json, object: &str) -> (r: Result<Vec<Contract>, VouchError>)
    ensures
        match r {
            Ok(cs) => forall_sources(cs@, applicable(shared@, *schema, object@, 0)) && forall|j: int|
                0 <= j < shared@.len() ==> #[trigger] shared_compiles(shared@, *schema, object@, j),
            Err(e) => e.outcome == Outcome::Error && e.code == crate::error::ERROR && shared_failure(shared@, *schema, object@, e),
        },
{
    let mut out: Vec<Contract> = Vec::new();
    let mut i: usize = 0;
    while i < shared.len()
        invariant
            i <= shared@.len(),
            forall_sources(out@, applicable(shared@, *schema, object@, 0).take(
                applicable(shared@, *schema, object@, 0).len() - applicable(shared@, *schema, object@, i as int).len(),
            )),
            applicable(shared@, *schema, object@, 0) == applicable(shared@, *schema, object@, 0).take(
                applicable(shared@, *schema, object@, 0).len() - applicable(shared@, *schema, object@, i as int).len(),
            ) + applicable(shared@, *schema, object@, i as int),
            forall|m: int| 0 <= m < i ==> #[trigger] shared_compiles(shared@, *schema, object@, m),
        decreases shared@.len() - i,
    {
        let s = &shared[i];
        let ghost all = applicable(shared@, *schema, object@, 0);
        let ghost rest = applicable(shared@, *schema, object@, i as int);
        let ghost next = applicable(shared@, *schema, object@, i + 1);
        if declares_property(schema, s.when.as_str()) {
            let mut source = owned("!has(");
            push_str(&mut source, object);
            push_str(&mut source, ".");
            push_str(&mut source, s.when.as_str());
            push_str(&mut source, ") || (");
            push_str(&mut source, s.expr.as_str());
            push_str(&mut source, ")");
            let message = match &s.message {
                Some(m) => Some(m.clone()),
                None => None,
            };
            match Contract::compile(source.as_str(), message) {
                Ok(c) => {
                    out.push(c);
                },
                Err(problem) => {
                    let mut m = owned("cannot compile the collection contract on `");
                    push_str(&mut m, s.when.as_str());
                    push_str(&mut m, "`: ");
                    push_str(&mut m, problem.as_str());
                    let e = VouchError::error(m);
                    assert(source@ == scoped_source(shared@[i as int], object@));
                    assert(shared_failure(shared@, *schema, object@, e)) by {
                        assert(shared@[i as int] == *s);
                    }
                    return Err(e);
                },
            }
            proof {
                assert(rest == seq![scoped_source(shared@[i as int], object@)] + next);
                assert(all.take(all.len() - next.len()) =~= all.take(all.len() - rest.len()).push(
                    scoped_source(shared@[i as int], object@),
                ));
                assert(all =~= all.take(all.len() - next.len()) + next);
            }
        } else {
            proof {
                assert(rest =~= next);
            }
        }
        i = i + 1;
    }
    proof {
        let all = applicable(shared@, *schema, object@, 0);
        assert(all.take(all.len() - 0) =~= all);
    }
    Ok(out)
}

/// Each contract's source is the source at its index.
pub open spec fn forall_sources(cs: Seq<Contract>, sources: Seq<Seq<char>>) -> bool {
    cs.len() == sources.len() && forall|k: int| 0 <= k < cs.len() ==> (#[trigger] cs[k]).source@ == sources[k]
}

/// Attaches the collection's shared contracts to a node that takes (for `requires`) or
/// returns (for `ensures`) the property each is about.
///
/// Shared contracts go **first**. A collection-wide rule is the broader statement, and a
/// caller who breaks both should be told about the general one.
pub fn apply_shared(node: &mut Node, preamble: &Preamble) -> (r: Result<(), VouchError>)
    ensures
        r is Ok ==> {
            let pre = applicable(preamble.requires@, old(node).input_schema, "input"@, 0);
            let post = applicable(preamble.ensures@, old(node).output_schema, "result"@, 0);
            &&& final(node).requires@.len() == pre.len() + old(node).requires@.len()
            &&& (forall|k: int| 0 <= k < pre.len() ==> (#[trigger] final(node).requires@[k]).source@ == pre[k])
            &&& final(node).requires@.subrange(pre.len() as int, final(node).requires@.len() as int) == old(node).requires@
            &&& final(node).ensures@.len() == post.len() + old(node).ensures@.len()
            &&& (forall|k: int| 0 <= k < post.len() ==> (#[trigger] final(node).ensures@[k]).source@ == post[k])
            &&& final(node).ensures@.subrange(post.len() as int, final(node).ensures@.len() as int) == old(node).ensures@
            &&& final(node).manifest == old(node).manifest
            &&& final(node).input_schema == old(node).input_schema
            &&& final(node).output_schema == old(node).output_schema
        },
        r matches Err(e) ==> e.outcome == Outcome::Error && e.code == crate::error::ERROR && *final(node) == *old(node) && (shared_failure(
            preamble.requires@,
            old(node).input_schema,
            "input"@,
            e,
        ) || ((forall|j: int| 0 <= j < preamble.requires@.len() ==> #[trigger] shared_compiles(
            preamble.requires@,
            old(node).input_schema,
            "input"@,
            j,
        )) && shared_failure(preamble.ensures@, old(node).output_schema, "result"@, e))),
        (exists|j: int| 0 <= j < preamble.requires@.len() && !#[trigger] shared_compiles(
            preamble.requires@,
            old(node).input_schema,
            "input"@,
            j,
        )) || (exists|j: int| 0 <= j < preamble.ensures@.len() && !#[trigger] shared_compiles(
            preamble.ensures@,
            old(node).output_schema,
            "result"@,
            j,
        )) ==> (r matches Err(e) && e.code == crate::error::ERROR),
        r is Ok ==> (forall|j: int| 0 <= j < preamble.requires@.len() ==> #[trigger] shared_compiles(
            preamble.requires@,
            old(node).input_schema,
            "input"@,
            j,
        )) && (forall|j: int| 0 <= j < preamble.ensures@.len() ==> #[trigger] shared_compiles(
            preamble.ensures@,
            old(node).output_schema,
            "result"@,
            j,
        )),
{
    let mut pre = compile_shared(&preamble.requires, &node.input_schema, "input")?;
    let mut post = compile_shared(&preamble.ensures, &node.output_schema, "result")?;
    let ghost n_pre = pre@.len();
    let ghost n_post = post@.len();
    let ghost old_pre = node.requires@;
    let ghost old_post = node.ensures@;
    pre.append(&mut node.requires);
    node.requires = pre;
    post.append(&mut node.ensures);
    node.ensures = post;
    assert(node.requires@.subrange(n_pre as int, node.requires@.len() as int) =~= old_pre);
    assert(node.ensures@.subrange(n_post as int, node.ensures@.len() as int) =~= old_post);
    Ok(())
}

// ------------------------------------------------------------------------------ names

/// Names in the order `String`s sort in: by their bytes.
pub open spec fn names_sorted(names: Seq<Seq<char>>) -> bool {
    forall|i: int, j: int|
        0 <= i < j < names.len() ==> !crate::text::lex_lt(
            vstd::utf8::encode_utf8(#[trigger] names[j]),
            vstd::utf8::encode_utf8(#[trigger] names[i]),
        )
}

/// The node names a directory listing found, sorted, so a collection lists the same way
/// whatever order the file system hands its entries back in.
pub fn sort_names(names: Vec<String>) -> (r: Vec<String>)
    ensures
        names_sorted(string_views(r@)),
        string_views(r@).to_multiset() == string_views(names@).to_multiset(),
{
    let mut out: Vec<String> = Vec::new();
    proof {
        assert(string_views(out@) =~= string_views(names@.take(0)));
    }
    let mut i: usize = 0;
    while i < names.len()
        invariant
            i <= names@.len(),
            names_sorted(string_views(out@)),
            string_views(out@).to_multiset() == string_views(names@.take(i as int)).to_multiset(),
        decreases names@.len() - i,
    {
        let x = names[i].clone();
        let xb = x.as_str().as_bytes();
        let ghost kx = vstd::utf8::encode_utf8(x@);
        // The first place whose name sorts after `x`.
        let mut p: usize = 0;
        while p < out.len()
            invariant_except_break
                p <= out@.len(),
                forall|j: int| 0 <= j < p ==> !crate::text::lex_lt(kx, vstd::utf8::encode_utf8(#[trigger] out@[j]@)),
            invariant
                xb@ == kx,
                names_sorted(string_views(out@)),
            ensures
                p <= out@.len(),
                forall|j: int| 0 <= j < p ==> !crate::text::lex_lt(kx, vstd::utf8::encode_utf8(#[trigger] out@[j]@)),
                p < out@.len() ==> crate::text::lex_lt(kx, vstd::utf8::encode_utf8(out@[p as int]@)),
            decreases out@.len() - p,
        {
            let (less, _) = crate::text::lex_compare(xb, out[p].as_str().as_bytes());
            if less {
                break;
            }
            p = p + 1;
        }
        let ghost before = out@;
        out.insert(p, x);
        proof {
            let vb = string_views(before);
            let va = string_views(out@);
            assert(va =~= vb.insert(p as int, x@));
            assert forall|a: int, b: int| 0 <= a < b < va.len() implies !crate::text::lex_lt(
                vstd::utf8::encode_utf8(#[trigger] va[b]),
                vstd::utf8::encode_utf8(#[trigger] va[a]),
            ) by {
                let ka = vstd::utf8::encode_utf8(va[a]);
                let kb = vstd::utf8::encode_utf8(va[b]);
                if a < p && b < p {
                    assert(va[a] == vb[a] && va[b] == vb[b]);
                } else if a > p && b > p {
                    assert(va[a] == vb[a - 1] && va[b] == vb[b - 1]);
                } else if a == p {
                    // x, then something that sorted after everything before it
                    assert(va[b] == vb[b - 1]);
                    if p < vb.len() {
                        assert(crate::text::lex_lt(kx, vstd::utf8::encode_utf8(vb[p as int])));
                        if b - 1 > p {
                            assert(!crate::text::lex_lt(vstd::utf8::encode_utf8(vb[b - 1]), vstd::utf8::encode_utf8(vb[p as int])));
                            crate::text::lemma_lex_total(vstd::utf8::encode_utf8(vb[b - 1]), vstd::utf8::encode_utf8(vb[p as int]));
                            if crate::text::lex_lt(kb, kx) {
                                if vstd::utf8::encode_utf8(vb[b - 1]) =~= vstd::utf8::encode_utf8(vb[p as int]) {
                                    crate::text::lemma_lex_asymmetric(kx, vstd::utf8::encode_utf8(vb[p as int]));
                                } else {
                                    crate::text::lemma_lex_transitive(kx, vstd::utf8::encode_utf8(vb[p as int]), kb);
                                    crate::text::lemma_lex_asymmetric(kx, kb);
                                }
                            }
                        } else {
                            crate::text::lemma_lex_asymmetric(kx, kb);
                        }
                    }
                } else {
                    // b == p: something before x that x did not sort before
                    assert(va[a] == vb[a]);
                    assert(!crate::text::lex_lt(kx, vstd::utf8::encode_utf8(vb[a])));
                }
            }
            assert(string_views(names@.take(i + 1)) =~= string_views(names@.take(i as int)).push(names@[i as int]@));
            vstd::seq_lib::to_multiset_insert(vb, p as int, x@);
            vstd::seq_lib::to_multiset_build(string_views(names@.take(i as int)), names@[i as int]@);
        }
        i = i + 1;
    }
    assert(names@.take(i as int) =~= names@);
    out
}

} // verus!
