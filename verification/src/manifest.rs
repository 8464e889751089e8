//! `node.toml`: what a node declares, and the checks a node must pass to load.

use crate::contracts::{cel_parse_problem, cel_references, Contract};
use crate::error::{Outcome, VouchError};
use crate::json::{render, Json};
use crate::schema::{numeric_leaves, schema_compile_problem};
use crate::text::{owned, push_str, string_views};
use vstd::prelude::*;
use vstd::string::StrSliceExecFns;

verus! {

/// How long a node may run when its manifest does not say.
pub fn default_timeout() -> (r: u64)
    ensures
        r == 5000,
{
    5000
}

/// A node's manifest, as declared.
#[derive(Debug)]
pub struct Manifest {
    pub name: String,
    pub version: String,
    pub purpose: String,
    /// Routing context, published but never executed.
    pub use_when: Vec<String>,
    pub not_for: Vec<String>,
    /// The command that runs the node: a program and its arguments.
    pub run: Vec<String>,
    pub timeout_ms: u64,
    /// Declared inputs, for provenance. Not a cache key.
    pub reads: Vec<ReadDecl>,
    /// The `[input]` and `[output]` sections: a schema path or an inline schema.
    pub input: Json,
    pub output: Json,
    /// Parameter guidance, by parameter name, in name order.
    pub params: Vec<(String, Param)>,
    pub requires: Vec<ContractDecl>,
    pub ensures: Vec<ContractDecl>,
    pub examples: Vec<Example>,
}

/// A contract is written either as a bare expression, or as a table carrying the message a
/// caller should see when it does not hold.
#[derive(Debug)]
pub enum ContractDecl {
    Expr(String),
    Detailed { expr: String, message: Option<String> },
}

impl ContractDecl {
    pub open spec fn expr_spec(&self) -> Seq<char> {
        match self {
            ContractDecl::Expr(e) => e@,
            ContractDecl::Detailed { expr, .. } => expr@,
        }
    }

    pub fn expr(&self) -> (r: &str)
        ensures
            r@ == self.expr_spec(),
    {
        match self {
            ContractDecl::Expr(e) => e.as_str(),
            ContractDecl::Detailed { expr, .. } => expr.as_str(),
        }
    }

    pub fn message(&self) -> (r: Option<String>)
        ensures
            match self {
                ContractDecl::Expr(_) => r is None,
                ContractDecl::Detailed { message, .. } => match message {
                    Some(m) => r matches Some(x) && x@ == m@,
                    None => r is None,
                },
            },
    {
        match self {
            ContractDecl::Expr(_) => None,
            ContractDecl::Detailed { message, .. } => match message {
                Some(m) => Some(m.clone()),
                None => None,
            },
        }
    }
}

#[derive(Debug)]
pub struct ReadDecl {
    pub path: String,
}

/// What the author says about one parameter.
#[derive(Debug)]
pub struct Param {
    pub guidance: String,
    /// This parameter is a judgement the collection will not make for the caller.
    ///
    /// Some parameters have no right answer in the data. A node that picks one is presenting an
    /// opinion as a calculation, and a node that leaves it required without saying anything is
    /// worse: the caller has to produce a value from nowhere. Marking it `judgement` makes the
    /// refusal a *question*: exit 17, the parameter named, and `options` carried through.
    pub judgement: bool,
    /// The choices to offer when a judgement parameter is missing, as the collection wrote them.
    pub options: Vec<Json>,
}

#[derive(Debug)]
pub struct Example {
    pub ask: String,
    pub call: Json,
}

/// A manifest whose schemas compiled and whose contracts passed the strength gate. Holding
/// one of these means the node is loadable.
#[derive(Debug)]
pub struct Node {
    pub manifest: Manifest,
    pub dir: String,
    pub input_schema: Json,
    pub output_schema: Json,
    pub requires: Vec<Contract>,
    pub ensures: Vec<Contract>,
}

// -------------------------------------------------------------------------- schemas

/// Where an `[input]`/`[output]` section's schema is: `Some(path)` for a pointer to a schema
/// file (`schema = "input.schema.json"`), `None` when the section is an inline schema.
pub fn schema_location(section: &Json, label: &str) -> (r: Result<Option<String>, VouchError>)
    ensures
        match r {
            Ok(Some(p)) => section is Object && (section.get_spec("schema"@) matches Some(Json::Str(q))
                && q@ == p@),
            Ok(None) => section matches Json::Object(fields) && fields@.len() > 0
                && section.get_spec("schema"@) is None,
            Err(e) => e.outcome == Outcome::Error && e.code == crate::error::ERROR && e.reason@ == if !(section is Object) {
                "["@ + label@ + "] must be a table"@
            } else if section.get_spec("schema"@) is Some {
                "["@ + label@ + "] `schema` must be a path string"@
            } else {
                "["@ + label@ + "] declares neither a `schema` path nor an inline schema"@
            },
        },
{
    let fields = match section {
        Json::Object(fields) => fields,
        _ => {
            let mut m = owned("[");
            push_str(&mut m, label);
            push_str(&mut m, "] must be a table");
            return Err(VouchError::error(m));
        },
    };
    match section.get("schema") {
        Some(Json::Str(p)) => Ok(Some(p.clone())),
        Some(_) => {
            let mut m = owned("[");
            push_str(&mut m, label);
            push_str(&mut m, "] `schema` must be a path string");
            Err(VouchError::error(m))
        },
        None => {
            if fields.len() == 0 {
                let mut m = owned("[");
                push_str(&mut m, label);
                push_str(&mut m, "] declares neither a `schema` path nor an inline schema");
                Err(VouchError::error(m))
            } else {
                Ok(None)
            }
        },
    }
}


// ----------------------------------------------------------------- loading checks

/// The index of the first declaration whose expression does not parse.
pub open spec fn first_unparsable(decls: Seq<ContractDecl>, i: int) -> Option<int>
    decreases decls.len() - i,
{
    if i < 0 || i >= decls.len() {
        None
    } else if cel_parse_problem(decls[i].expr_spec()) is Some {
        Some(i)
    } else {
        first_unparsable(decls, i + 1)
    }
}

/// The expressions of `decls[i..]` joined by `; `.
pub open spec fn joined_exprs(decls: Seq<ContractDecl>, i: int) -> Seq<char>
    decreases decls.len() - i,
{
    if i < 0 || i >= decls.len() {
        seq![]
    } else {
        (if i > 0 {
            "; "@
        } else {
            seq![]
        }) + decls[i].expr_spec() + joined_exprs(decls, i + 1)
    }
}

/// The first of `decls[i..]` whose expression refers to `name`.
pub open spec fn first_referencing(decls: Seq<ContractDecl>, name: Seq<char>, i: int) -> Option<int>
    decreases decls.len() - i,
{
    if i < 0 || i >= decls.len() {
        None
    } else if cel_references(decls[i].expr_spec(), name) {
        Some(i)
    } else {
        first_referencing(decls, name, i + 1)
    }
}

/// Why a compile of `decls` under `label` fails, if it does.
pub open spec fn compile_problem(decls: Seq<ContractDecl>, label: Seq<char>) -> Option<Seq<char>> {
    match first_unparsable(decls, 0) {
        Some(i) => Some(
            "`"@ + label + "` expression does not compile: "@ + decls[i].expr_spec() + "\n  "@
                + cel_parse_problem(decls[i].expr_spec())->0,
        ),
        None => None,
    }
}

/// Why a node with this manifest and these schemas will not load, checked in order: its
/// schemas compile, its contracts compile, it has a postcondition, some postcondition refers
/// to `result`, no precondition refers to `result` (it does not exist before the node runs),
/// and it has something to run.
pub open spec fn load_problem(m: Manifest, input_schema: Json, output_schema: Json) -> Option<Seq<char>> {
    let pre = m.requires@;
    let post = m.ensures@;
    if schema_compile_problem(render(input_schema)) is Some {
        Some("input schema"@ + " is not a valid JSON Schema: "@ + schema_compile_problem(render(input_schema))->0)
    } else if schema_compile_problem(render(output_schema)) is Some {
        Some("output schema"@ + " is not a valid JSON Schema: "@ + schema_compile_problem(render(output_schema))->0)
    } else if compile_problem(pre, "requires"@) is Some {
        compile_problem(pre, "requires"@)
    } else if compile_problem(post, "ensures"@) is Some {
        compile_problem(post, "ensures"@)
    } else if post.len() == 0 {
        Some("node declares no `ensures`; a node with no postcondition cannot be vouched for"@)
    } else if first_referencing(post, "result"@, 0) is None {
        Some(
            "no `ensures` expression references `result`; these postconditions check nothing about the returned value: "@
                + joined_exprs(post, 0),
        )
    } else if first_referencing(pre, "result"@, 0) is Some {
        Some(
            "`requires` expression references `result`, which does not exist before the node runs: "@
                + pre[first_referencing(pre, "result"@, 0)->0].expr_spec(),
        )
    } else if m.run@.len() == 0 {
        Some("`run` is empty; nothing to execute"@)
    } else {
        None
    }
}

/// Each contract is compiled from the declaration at its index.
pub open spec fn compiled_from(cs: Seq<Contract>, decls: Seq<ContractDecl>) -> bool {
    &&& cs.len() == decls.len()
    &&& forall|k: int|
        0 <= k < cs.len() ==> (#[trigger] cs[k]).source@ == decls[k].expr_spec() && match decls[k] {
            ContractDecl::Expr(_) => cs[k].message is None,
            ContractDecl::Detailed { message, .. } => match message {
                Some(m) => cs[k].message matches Some(x) && x@ == m@,
                None => cs[k].message is None,
            },
        }
}

/// Compiles every declaration, or reports the first that does not compile.
pub fn compile_all(decls: &Vec<ContractDecl>, label: &str) -> (r: Result<Vec<Contract>, VouchError>)
    ensures
        match r {
            Ok(cs) => compile_problem(decls@, label@) is None && compiled_from(cs@, decls@),
            Err(e) => e.outcome == Outcome::Error && e.code == crate::error::ERROR && compile_problem(decls@, label@) == Some(e.reason@),
        },
{
    let mut out: Vec<Contract> = Vec::new();
    let mut i: usize = 0;
    while i < decls.len()
        invariant
            i <= decls@.len(),
            first_unparsable(decls@, 0) == first_unparsable(decls@, i as int),
            out@.len() == i,
            forall|k: int|
                0 <= k < i ==> (#[trigger] out@[k]).source@ == decls@[k].expr_spec() && match decls@[k] {
                    ContractDecl::Expr(_) => out@[k].message is None,
                    ContractDecl::Detailed { message, .. } => match message {
                        Some(m) => out@[k].message matches Some(x) && x@ == m@,
                        None => out@[k].message is None,
                    },
                },
        decreases decls@.len() - i,
    {
        let decl = &decls[i];
        match Contract::compile(decl.expr(), decl.message()) {
            Ok(c) => {
                out.push(c);
            },
            Err(problem) => {
                let mut m = owned("`");
                push_str(&mut m, label);
                push_str(&mut m, "` expression does not compile: ");
                push_str(&mut m, decl.expr());
                push_str(&mut m, "\n  ");
                push_str(&mut m, problem.as_str());
                return Err(VouchError::error(m));
            },
        }
        i = i + 1;
    }
    Ok(out)
}

/// The expressions of `decls`, joined by `; `.
fn join_exprs(decls: &Vec<ContractDecl>) -> (r: String)
    ensures
        r@ == joined_exprs(decls@, 0),
{
    let mut r = String::new();
    let mut i: usize = 0;
    while i < decls.len()
        invariant
            i <= decls@.len(),
            r@ + joined_exprs(decls@, i as int) == joined_exprs(decls@, 0),
        decreases decls@.len() - i,
    {
        let ghost before = r@;
        if i > 0 {
            push_str(&mut r, "; ");
        }
        push_str(&mut r, decls[i].expr());
        proof {
            assert(r@ + joined_exprs(decls@, i + 1) =~= before + joined_exprs(decls@, i as int));
        }
        i = i + 1;
    }
    assert(r@ + joined_exprs(decls@, i as int) =~= r@);
    r
}

/// The first contract that refers to `name`.
fn find_referencing(cs: &Vec<Contract>, name: &str, decls: Ghost<Seq<ContractDecl>>) -> (r: Option<usize>)
    requires
        compiled_from(cs@, decls@),
    ensures
        match r {
            Some(k) => first_referencing(decls@, name@, 0) == Some(k as int) && k < cs@.len(),
            None => first_referencing(decls@, name@, 0) is None,
        },
{
    let mut i: usize = 0;
    while i < cs.len()
        invariant
            i <= cs@.len(),
            compiled_from(cs@, decls@),
            first_referencing(decls@, name@, 0) == first_referencing(decls@, name@, i as int),
        decreases cs@.len() - i,
    {
        assert(cs@[i as int].source@ == decls@[i as int].expr_spec());
        if cs[i].references(name) {
            return Some(i);
        }
        i = i + 1;
    }
    None
}

impl Node {
    /// A node from its manifest and its two schemas, if it passes the loading checks: a node whose
    /// postconditions check nothing gives an agent *more* confidence than no node while
    /// checking nothing, and false assurance is worse than absent assurance.
    pub fn from_manifest(manifest: Manifest, dir: String, input_schema: Json, output_schema: Json) -> (r: Result<Node, VouchError>)
        ensures
            match r {
                Ok(n) => load_problem(manifest, input_schema, output_schema) is None
                    && compiled_from(n.requires@, manifest.requires@)
                    && compiled_from(n.ensures@, manifest.ensures@)
                    && n.manifest == manifest && n.dir == dir && n.input_schema == input_schema
                    && n.output_schema == output_schema,
                Err(e) => e.outcome == Outcome::Error && e.code == crate::error::ERROR && load_problem(manifest, input_schema, output_schema)
                    == Some(e.reason@) && (e.node matches Some(name) && name@ == manifest.name@),
            },
    {
        let name = manifest.name.as_str();
        if let Err(e) = crate::schema::compile(&input_schema, "input schema") {
            return Err(e.with_node(name));
        }
        if let Err(e) = crate::schema::compile(&output_schema, "output schema") {
            return Err(e.with_node(name));
        }
        let pre = match compile_all(&manifest.requires, "requires") {
            Ok(cs) => cs,
            Err(e) => {
                return Err(e.with_node(name));
            },
        };
        let post = match compile_all(&manifest.ensures, "ensures") {
            Ok(cs) => cs,
            Err(e) => {
                return Err(e.with_node(name));
            },
        };
        if post.len() == 0 {
            let e = VouchError::error(
                owned("node declares no `ensures`; a node with no postcondition cannot be vouched for"),
            );
            return Err(e.with_node(name));
        }
        if find_referencing(&post, "result", Ghost(manifest.ensures@)).is_none() {
            let mut m = owned(
                "no `ensures` expression references `result`; these postconditions check nothing about the returned value: ",
            );
            let listed = join_exprs(&manifest.ensures);
            push_str(&mut m, listed.as_str());
            return Err(VouchError::error(m).with_node(name));
        }
        if let Some(k) = find_referencing(&pre, "result", Ghost(manifest.requires@)) {
            let mut m = owned(
                "`requires` expression references `result`, which does not exist before the node runs: ",
            );
            push_str(&mut m, pre[k].source.as_str());
            return Err(VouchError::error(m).with_node(name));
        }
        if manifest.run.len() == 0 {
            return Err(VouchError::error(owned("`run` is empty; nothing to execute")).with_node(name));
        }
        Ok(Node { manifest, dir, input_schema, output_schema, requires: pre, ensures: post })
    }
}


// ------------------------------------------------------------------------- strength

/// How much a node's postconditions actually check, reported by `describe` so a consumer can
/// weight the answer.
#[derive(Debug)]
pub struct Strength {
    pub ensures: usize,
    pub numeric_output_fields: usize,
    pub numeric_fields_referenced: usize,
    pub unreferenced_numeric_fields: Vec<String>,
}

/// A path with its trailing `[]`s taken off: `result.breakpoints[]` is `result.breakpoints`.
pub open spec fn trim_brackets(p: Seq<char>) -> Seq<char>
    decreases p.len(),
{
    if p.len() >= 2 && p[p.len() - 2] == '[' && p[p.len() - 1] == ']' {
        trim_brackets(p.subrange(0, p.len() - 2))
    } else {
        p
    }
}

/// The sources of `cs[i..]`, joined by spaces.
pub open spec fn joined_sources(cs: Seq<Contract>, i: int) -> Seq<char>
    decreases cs.len() - i,
{
    if i < 0 || i >= cs.len() {
        seq![]
    } else {
        (if i > 0 {
            seq![' ']
        } else {
            seq![]
        }) + cs[i].source@ + joined_sources(cs, i + 1)
    }
}

/// The numeric output fields none of `sources` mentions.
pub open spec fn unreferenced(numeric: Seq<Seq<char>>, sources: Seq<char>) -> Seq<Seq<char>> {
    numeric.filter(|p: Seq<char>| !crate::text::contains_text(sources, trim_brackets(p)))
}

fn trim_brackets_exec(p: &Vec<char>) -> (r: Vec<char>)
    ensures
        r@ == trim_brackets(p@),
{
    let mut end = p.len();
    proof {
        assert(p@.subrange(0, end as int) =~= p@);
    }
    while end >= 2 && p[end - 2] == '[' && p[end - 1] == ']'
        invariant
            end <= p@.len(),
            trim_brackets(p@) == trim_brackets(p@.subrange(0, end as int)),
        decreases end,
    {
        proof {
            assert(p@.subrange(0, end as int).subrange(0, end - 2) =~= p@.subrange(0, end - 2));
        }
        end = end - 2;
    }
    let mut r: Vec<char> = Vec::new();
    let mut k: usize = 0;
    while k < end
        invariant
            k <= end <= p@.len(),
            r@ == p@.subrange(0, k as int),
        decreases end - k,
    {
        r.push(p[k]);
        proof {
            assert(r@ =~= p@.subrange(0, k + 1));
        }
        k = k + 1;
    }
    r
}

impl Node {
    /// Which numeric output fields the postconditions mention.
    ///
    /// This is a textual scan of the expression sources, not an AST walk, so it is advisory:
    /// it can miss a field reached through an unusual expression. It is only ever used to
    /// *report* strength, never to decide whether a contract held.
    pub fn strength(&self) -> (s: Strength)
        ensures
            ({
                let numeric = numeric_leaves(self.output_schema, self.output_schema, "result"@, 0);
                let missing = unreferenced(numeric, joined_sources(self.ensures@, 0));
                &&& s.ensures == self.ensures@.len()
                &&& s.numeric_output_fields == numeric.len()
                &&& string_views(s.unreferenced_numeric_fields@) == missing
                &&& s.numeric_fields_referenced == numeric.len() - missing.len()
            }),
    {
        let numeric = crate::schema::numeric_paths(&self.output_schema, &self.output_schema, "result");
        let mut sources = String::new();
        let mut i: usize = 0;
        while i < self.ensures.len()
            invariant
                i <= self.ensures@.len(),
                sources@ + joined_sources(self.ensures@, i as int) == joined_sources(self.ensures@, 0),
            decreases self.ensures@.len() - i,
        {
            let ghost before = sources@;
            if i > 0 {
                crate::text::push_char(&mut sources, ' ');
            }
            push_str(&mut sources, self.ensures[i].source.as_str());
            proof {
                assert(sources@ + joined_sources(self.ensures@, i + 1) =~= before + joined_sources(self.ensures@, i as int));
            }
            i = i + 1;
        }
        assert(sources@ + joined_sources(self.ensures@, i as int) =~= sources@);
        let hay = crate::text::chars_of(sources.as_str());
        let ghost listed = string_views(numeric@);
        let ghost keep = |p: Seq<char>| !crate::text::contains_text(sources@, trim_brackets(p));
        let mut missing: Vec<String> = Vec::new();
        let mut k: usize = 0;
        while k < numeric.len()
            invariant
                k <= numeric@.len(),
                listed == string_views(numeric@),
                hay@ == sources@,
                keep == (|p: Seq<char>| !crate::text::contains_text(sources@, trim_brackets(p))),
                string_views(missing@) == listed.take(k as int).filter(keep),
            decreases numeric@.len() - k,
        {
            let path = crate::text::chars_of(numeric[k].as_str());
            let needle = trim_brackets_exec(&path);
            let found = crate::text::find_text(&hay, &needle);
            proof {
                assert(listed.take(k + 1) =~= listed.take(k as int).push(listed[k as int]));
                listed.take(k as int).lemma_filter_push(listed[k as int], keep);
            }
            if !found {
                missing.push(numeric[k].clone());
                assert(string_views(missing@) =~= string_views(missing@.drop_last()).push(numeric@[k as int]@));
            }
            k = k + 1;
        }
        assert(listed.take(k as int) =~= listed);
        proof {
            listed.lemma_filter_len(keep);
        }
        Strength {
            ensures: self.ensures.len(),
            numeric_output_fields: numeric.len(),
            numeric_fields_referenced: numeric.len() - missing.len(),
            unreferenced_numeric_fields: missing,
        }
    }
}

} // verus!
