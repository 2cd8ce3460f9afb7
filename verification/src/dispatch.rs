//! One tool call against the program.
//!
//! The important design choice is that **the gates live inside the edit
//! tools**. A change is spliced, compiled, checked for what it moved, and
//! tested; if any of those fail the diagnostic comes back as an error result.
//! The model sees what broke in the same turn and fixes it: no outer retry loop,
//! no re-sending context. A rejected edit costs one tool round trip instead of a
//! whole new request.
//!
//! What only the language can do (compiling, resolving a name, evaluating tests)
//! and what only the caller may do (files, commands) is asked for by a [`Step`]
//! and settled from what came of it. Nothing is written to disk here: the source
//! is a copy in memory, and it changes only when a change is accepted.

use crate::gate;
use crate::gate::Recompiled;
use crate::index;
use crate::json;
use crate::json::{Json, JsonView};
use crate::llm::{ToolCall, ToolCallView};
use crate::program;
use crate::program::{Bucket, Node, Program, Span};
use crate::surgery;
use crate::text;
use vstd::prelude::*;

verus! {

/// What a tool call came to.
#[derive(Debug)]
pub struct Output {
    pub text: String,
    pub is_error: bool,
}

impl View for Output {
    type V = (Seq<char>, bool);

    open spec fn view(&self) -> (Seq<char>, bool) {
        (self.text@, self.is_error)
    }
}

/// The program the agent is working on. Mutated in memory only.
#[derive(Debug)]
pub struct Workspace {
    source: String,
    dirty: bool,
}

impl Workspace {
    /// The source as it stands.
    pub closed spec fn now(self) -> Seq<char> {
        self.source@
    }

    /// A change was accepted.
    pub closed spec fn changed(self) -> bool {
        self.dirty
    }

    pub fn new(source: String) -> (r: Workspace)
        ensures
            r.now() == source@,
            !r.changed(),
    {
        Workspace { source, dirty: false }
    }

    pub fn source(&self) -> (r: &str)
        ensures
            r@ == self.now(),
    {
        self.source.as_str()
    }

    pub fn is_dirty(&self) -> (r: bool)
        ensures
            r == self.changed(),
    {
        self.dirty
    }

    /// The source, if a change was accepted.
    pub fn into_changed_source(self) -> (r: Option<String>)
        ensures
            text::opt_text(r) == if self.changed() {
                Some(self.now())
            } else {
                None
            },
    {
        if self.dirty {
            Some(self.source)
        } else {
            None
        }
    }

    fn accept(&mut self, candidate: String)
        ensures
            final(self).now() == candidate@,
            final(self).changed(),
    {
        self.source = candidate;
        self.dirty = true;
    }
}

/// A body edit, before it is spliced.
#[derive(Debug)]
pub struct Edit {
    /// The bucket, as the model named it.
    pub address: String,
    pub body: String,
    pub description: Option<String>,
    /// The bucket's address.
    pub target: String,
    pub span: Option<Span>,
}

/// A body edit, as contracts speak of it.
pub struct EditView {
    pub address: Seq<char>,
    pub body: Seq<char>,
    pub description: Option<Seq<char>>,
    pub target: Seq<char>,
    pub span: Option<Span>,
}

impl View for Edit {
    type V = EditView;

    open spec fn view(&self) -> EditView {
        EditView {
            address: self.address@,
            body: self.body@,
            description: text::opt_text(self.description),
            target: self.target@,
            span: self.span,
        }
    }
}

/// What a change is meant to do, and so what it may move.
#[derive(Debug)]
pub enum Kind {
    /// Part of a body is replaced: the bucket as the model named it, and its
    /// address.
    Patched(String, String),
    /// The bucket is removed, as the model named it.
    Deleted(String),
    /// The signature is replaced: the bucket's address, and what to say of it.
    Resigned(String, String),
    /// The tests are replaced: the bucket as the model named it, its address,
    /// and how many tests it gets.
    Retested(String, String, usize),
    /// A bucket of that label is added.
    Added(String),
}

/// What a change is meant to do, as contracts speak of it.
pub enum KindView {
    Patched(Seq<char>, Seq<char>),
    Deleted(Seq<char>),
    Resigned(Seq<char>, Seq<char>),
    Retested(Seq<char>, Seq<char>, nat),
    Added(Seq<char>),
}

impl View for Kind {
    type V = KindView;

    open spec fn view(&self) -> KindView {
        match self {
            Kind::Patched(a, t) => KindView::Patched(a@, t@),
            Kind::Deleted(a) => KindView::Deleted(a@),
            Kind::Resigned(t, n) => KindView::Resigned(t@, n@),
            Kind::Retested(a, t, n) => KindView::Retested(a@, t@, *n as nat),
            Kind::Added(l) => KindView::Added(l@),
        }
    }
}

/// What to do next for a tool call.
#[derive(Debug)]
pub enum Step {
    /// Nothing: this is the result.
    Done(Output),
    /// Render the neighbourhood of the bucket that the model named. The text,
    /// if there is one, stands for its body.
    ReadBucket(String, Option<String>),
    /// Evaluate every test of the program.
    RunTests,
    /// Splice the body into the source.
    Splice(Edit),
    /// Compile the candidate source and evaluate its tests.
    Check(String, Kind),
    /// Read a file of the project.
    ReadFile(String),
    /// Write a file of the project.
    WriteFile(String, String),
    /// Run a command in the project.
    Run(Vec<String>),
}

/// What to do next, as contracts speak of it.
pub enum StepView {
    Done(Seq<char>, bool),
    ReadBucket(Seq<char>, Option<Seq<char>>),
    RunTests,
    Splice(EditView),
    Check(Seq<char>, KindView),
    ReadFile(Seq<char>),
    WriteFile(Seq<char>, Seq<char>),
    Run(Seq<Seq<char>>),
}

impl View for Step {
    type V = StepView;

    open spec fn view(&self) -> StepView {
        match self {
            Step::Done(o) => StepView::Done(o.text@, o.is_error),
            Step::ReadBucket(a, b) => StepView::ReadBucket(a@, text::opt_text(*b)),
            Step::RunTests => StepView::RunTests,
            Step::Splice(e) => StepView::Splice(e@),
            Step::Check(c, k) => StepView::Check(c@, k@),
            Step::ReadFile(p) => StepView::ReadFile(p@),
            Step::WriteFile(p, c) => StepView::WriteFile(p@, c@),
            Step::Run(argv) => StepView::Run(text::texts(argv@)),
        }
    }
}

fn done(s: String) -> (r: Step)
    ensures
        r@ == StepView::Done(s@, false),
{
    Step::Done(Output { text: s, is_error: false })
}

fn refuse(s: String) -> (r: Step)
    ensures
        r@ == StepView::Done(s@, true),
{
    Step::Done(Output { text: s, is_error: true })
}

// ----------------------------------------------------------------- the input

/// The text of an argument; empty where there is none.
pub open spec fn arg(input: JsonView, key: Seq<char>) -> Seq<char> {
    json::get_text_or_empty(input, key)
}

fn opt_arg(input: &Json, key: &str) -> (r: Option<String>)
    ensures
        text::opt_text(r) == json::get_text(input@, key@),
{
    match input.get_text(key) {
        Some(s) => Some(s.clone()),
        None => None,
    }
}

/// The name that has to be resolved before a call can be dispatched; `None` if
/// the call names no bucket.
pub open spec fn name_to_resolve(name: Seq<char>, input: JsonView) -> Option<Seq<char>> {
    if name == "add_bucket"@ {
        Some(text::trim(arg(input, "label"@)))
    } else if name == "bucket_graph"@ {
        match json::get_text(input, "address"@) {
            Some(a) => Some(text::trim(a)),
            None => None,
        }
    } else if name == "read_bucket"@ || name == "edit_bucket"@ || surgical(name) {
        Some(text::trim(arg(input, "address"@)))
    } else {
        None
    }
}

/// The tools that cut into the source at a bucket's span.
pub open spec fn surgical(name: Seq<char>) -> bool {
    ||| name == "patch_bucket"@
    ||| name == "delete_bucket"@
    ||| name == "set_signature"@
    ||| name == "set_tests"@
}

fn is_surgical(name: &str) -> (r: bool)
    ensures
        r == surgical(name@),
{
    text::same(name, "patch_bucket") || text::same(name, "delete_bucket") || text::same(
        name,
        "set_signature",
    ) || text::same(name, "set_tests")
}

/// The name that has to be resolved before a call can be dispatched.
pub fn target_name(call: &ToolCall) -> (r: Option<String>)
    ensures
        text::opt_text(r) == name_to_resolve(call.name@, call.input@),
{
    if text::same(&call.name, "add_bucket") {
        return Some(text::trimmed(&call.input.get_text_or_empty("label")));
    }
    if text::same(&call.name, "bucket_graph") {
        return match call.input.get_text("address") {
            Some(a) => Some(text::trimmed(a)),
            None => None,
        };
    }
    if text::same(&call.name, "read_bucket") || text::same(&call.name, "edit_bucket")
        || is_surgical(&call.name) {
        return Some(text::trimmed(&call.input.get_text_or_empty("address")));
    }
    None
}

/// Where the body of a bucket stands.
pub open spec fn span_of(p: Program, target: Option<Seq<char>>) -> Option<Span> {
    match target {
        Some(t) => match program::bucket_at(p.buckets@, t) {
            Some(b) => b.body,
            None => None,
        },
        None => None,
    }
}

fn find_span(p: &Program, target: &str) -> (r: Option<Span>)
    ensures
        r == span_of(*p, Some(target@)),
{
    match p.get(target) {
        Some(b) => b.body,
        None => None,
    }
}

/// The spans of the program fit the source wherever the call cuts into it.
pub open spec fn ready(s: Seq<char>, p: Program, call: ToolCallView, resolved: Option<Seq<char>>) -> bool {
    surgical(call.name) ==> match span_of(p, resolved) {
        Some(span) => surgery::span_fits(s, span) && (call.name == "patch_bucket"@
            && json::get_text(call.input, "description"@) is Some ==> surgery::brace_fits(
            s,
            span,
        )),
        None => true,
    }
}

/// Whether the spans of the program fit the source wherever the call cuts into
/// it. They do for a program that was compiled from that source.
pub fn is_ready(ws: &Workspace, p: &Program, call: &ToolCall, resolved: &Option<String>) -> (r: bool)
    ensures
        r == ready(ws.now(), *p, call@, text::opt_text(*resolved)),
{
    if !is_surgical(&call.name) {
        return true;
    }
    match resolved {
        Some(t) => match find_span(p, t) {
            Some(span) => surgery::fits(&ws.source, span) && (!(text::same(
                &call.name,
                "patch_bucket",
            ) && call.input.get_text("description").is_some()) || surgery::has_brace(
                &ws.source,
                span,
            )),
            None => true,
        },
        None => true,
    }
}

/// What is said of a bucket that does not exist.
pub open spec fn unknown(address: Seq<char>) -> StepView {
    StepView::Done("unknown bucket "@ + address, true)
}

fn refuse_unknown(address: &str) -> (r: Step)
    ensures
        r@ == unknown(address@),
{
    let mut s = "unknown bucket ".to_owned();
    s.append(address);
    refuse(s)
}

// ------------------------------------------------------------------- reading

/// A line of the bucket list.
pub open spec fn bucket_line(b: Bucket) -> Seq<char> {
    b.address@ + "  "@ + text::padded(
        text::or_else(text::opt_text(b.label), Seq::empty()) + program::contract(b),
        36,
    ) + "  \""@ + b.desc@ + "\"\n"@
}

/// The lines of the bucket list.
pub open spec fn bucket_lines(buckets: Seq<Bucket>) -> Seq<char>
    decreases buckets.len(),
{
    if buckets.len() == 0 {
        Seq::empty()
    } else if buckets.last().user {
        bucket_lines(buckets.drop_last()) + bucket_line(buckets.last())
    } else {
        bucket_lines(buckets.drop_last())
    }
}

/// The list of all user buckets.
pub open spec fn bucket_list(buckets: Seq<Bucket>) -> Seq<char> {
    "address      label / contract                     description\n"@ + bucket_lines(buckets)
}

fn line_of(b: &Bucket) -> (r: String)
    ensures
        r@ == bucket_line(*b),
{
    proof {
        reveal_strlit("");
        assert(""@ =~= Seq::<char>::empty());
    }
    let mut c = text::text_or(&b.label, "");
    c.append(&program::contract_of(b));
    let mut s = b.address.clone();
    s.append("  ");
    s.append(&text::pad(&c, 36));
    s.append("  \"");
    s.append(&b.desc);
    s.append("\"\n");
    s
}

pub fn render_bucket_list(p: &Program) -> (r: String)
    ensures
        r@ == bucket_list(p.buckets@),
{
    let ghost all = p.buckets@;
    let mut lines = String::new();
    let mut i: usize = 0;
    assert(all.take(0) =~= Seq::<Bucket>::empty());
    while i < p.buckets.len()
        invariant
            i <= all.len(),
            all == p.buckets@,
            lines@ == bucket_lines(all.take(i as int)),
        decreases all.len() - i,
    {
        assert(all.take(i + 1).drop_last() =~= all.take(i as int));
        if p.buckets[i].user {
            lines.append(&line_of(&p.buckets[i]));
        }
        i = i + 1;
    }
    assert(all.take(all.len() as int) =~= all);
    let mut s = "address      label / contract                     description\n".to_owned();
    s.append(&lines);
    s
}

/// The answer to an English query.
pub open spec fn find_step(p: Program, input: JsonView) -> StepView {
    let q = arg(input, "query"@);
    let matches = index::found(p.buckets@, q, 6);
    if matches.len() == 0 {
        StepView::Done(
            "nothing matched \""@ + q + "\". Try list_buckets to see everything."@,
            false,
        )
    } else {
        StepView::Done(index::shortlist(matches), false)
    }
}

fn find_buckets(p: &Program, input: &Json) -> (r: Step)
    ensures
        r@ == find_step(*p, input@),
{
    let q = input.get_text_or_empty("query");
    let matches = index::search(p, &q, 6);
    assert(index::views(matches@).len() == matches@.len());
    if matches.len() == 0 {
        let mut s = "nothing matched \"".to_owned();
        s.append(&q);
        s.append("\". Try list_buckets to see everything.");
        return done(s);
    }
    done(index::render_shortlist(&matches))
}

/// What is shown of a bucket: its body as it is written in the file, not as the
/// language renders it. The renderer adds parentheses, so a model patching
/// against what it was shown would never match.
pub open spec fn read_step(
    s: Seq<char>,
    p: Program,
    input: JsonView,
    resolved: Option<Seq<char>>,
) -> StepView {
    StepView::ReadBucket(
        arg(input, "address"@),
        match span_of(p, resolved) {
            Some(span) => if surgery::span_fits(s, span) {
                Some(text::trim_end(surgery::body_text(s, span)))
            } else {
                None
            },
            None => None,
        },
    )
}

fn read_bucket(source: &str, p: &Program, input: &Json, resolved: &Option<String>) -> (r: Step)
    ensures
        r@ == read_step(source@, *p, input@, text::opt_text(*resolved)),
{
    let address = input.get_text_or_empty("address");
    let span = match resolved {
        Some(t) => find_span(p, t),
        None => None,
    };
    let body = match span {
        Some(span) => {
            let v = text::chars_of(source);
            match surgery::locate(&v, span) {
                Some((a, b)) => Some(text::trimmed_end(&text::string_of(&v, a, b))),
                None => None,
            }
        },
        None => None,
    };
    Step::ReadBucket(address, body)
}

// --------------------------------------------------------------------- graph

/// The names of those of the buckets that are part of the program.
pub open spec fn names(buckets: Seq<Bucket>, addresses: Seq<Seq<char>>) -> Seq<Seq<char>>
    decreases addresses.len(),
{
    if addresses.len() == 0 {
        Seq::empty()
    } else {
        let rest = names(buckets, addresses.drop_last());
        match program::bucket_at(buckets, addresses.last()) {
            Some(b) => rest.push(program::label_or(b, addresses.last())),
            None => rest,
        }
    }
}

fn names_of(p: &Program, addresses: &Vec<String>) -> (r: Vec<String>)
    ensures
        text::texts(r@) == names(p.buckets@, text::texts(addresses@)),
{
    let ghost all = text::texts(addresses@);
    let mut out: Vec<String> = Vec::new();
    let mut i: usize = 0;
    assert(all.take(0) =~= Seq::<Seq<char>>::empty());
    assert(text::texts(out@) =~= Seq::<Seq<char>>::empty());
    while i < addresses.len()
        invariant
            i <= addresses@.len(),
            all == text::texts(addresses@),
            text::texts(out@) == names(p.buckets@, all.take(i as int)),
        decreases addresses@.len() - i,
    {
        assert(all.take(i + 1).drop_last() =~= all.take(i as int));
        assert(all.take(i + 1).last() == addresses@[i as int]@);
        match p.get(&addresses[i]) {
            Some(b) => {
                let ghost before = text::texts(out@);
                let name = text::text_or(&b.label, &addresses[i]);
                out.push(name);
                assert(text::texts(out@) =~= before.push(name@));
            },
            None => {},
        }
        i = i + 1;
    }
    assert(all.take(addresses@.len() as int) =~= all);
    out
}

/// Names as one text; a dash if there are none.
pub open spec fn names_or_dash(names: Seq<Seq<char>>) -> Seq<char> {
    if names.len() == 0 {
        "-"@
    } else {
        text::joined(names, ", "@)
    }
}

fn join_or_dash(v: &Vec<String>) -> (r: String)
    ensures
        r@ == names_or_dash(text::texts(v@)),
{
    assert(text::texts(v@).len() == v@.len());
    if v.len() == 0 {
        return "-".to_owned();
    }
    text::join(v, ", ")
}

/// What is shown of one node of the call graph; `None` for one that is left
/// out.
pub open spec fn node_text(
    p: Program,
    n: Node,
    limited: bool,
    only: Option<Seq<char>>,
) -> Option<Seq<char>> {
    if limited && only != Some(n.address@) {
        None
    } else {
        match program::bucket_at(p.buckets@, n.address@) {
            None => None,
            Some(b) => if !b.user {
                None
            } else {
                Some(
                    program::label_or(b, n.address@) + " ("@ + n.address@ + ")\n  calls    -> "@
                        + names_or_dash(names(p.buckets@, text::texts(n.calls@)))
                        + "\n  called by <- "@ + names_or_dash(
                        names(p.buckets@, text::texts(n.called_by@)),
                    ) + "\n"@,
                )
            },
        }
    }
}

/// What is shown of the nodes of the call graph.
pub open spec fn graph_text(
    p: Program,
    nodes: Seq<Node>,
    limited: bool,
    only: Option<Seq<char>>,
) -> Seq<char>
    decreases nodes.len(),
{
    if nodes.len() == 0 {
        Seq::empty()
    } else {
        let rest = graph_text(p, nodes.drop_last(), limited, only);
        match node_text(p, nodes.last(), limited, only) {
            Some(t) => rest + t,
            None => rest,
        }
    }
}

/// The call graph, or the part of it at one bucket.
pub open spec fn graph_step(p: Program, input: JsonView, resolved: Option<Seq<char>>) -> StepView {
    let t = graph_text(p, p.graph@, json::get_text(input, "address"@) is Some, resolved);
    StepView::Done(
        if t.len() == 0 {
            "no matching buckets\n"@
        } else {
            t
        },
        false,
    )
}

fn node_of(p: &Program, n: &Node, limited: bool, only: &Option<String>) -> (r: Option<String>)
    ensures
        text::opt_text(r) == node_text(*p, *n, limited, text::opt_text(*only)),
{
    if limited {
        match only {
            Some(a) => {
                if !text::same(a, &n.address) {
                    return None;
                }
            },
            None => {
                return None;
            },
        }
    }
    let b = match p.get(&n.address) {
        Some(b) => b,
        None => {
            return None;
        },
    };
    if !b.user {
        return None;
    }
    let mut s = text::text_or(&b.label, &n.address);
    s.append(" (");
    s.append(&n.address);
    s.append(")\n  calls    -> ");
    s.append(&join_or_dash(&names_of(p, &n.calls)));
    s.append("\n  called by <- ");
    s.append(&join_or_dash(&names_of(p, &n.called_by)));
    s.append("\n");
    Some(s)
}

fn bucket_graph(p: &Program, input: &Json, resolved: &Option<String>) -> (r: Step)
    ensures
        r@ == graph_step(*p, input@, text::opt_text(*resolved)),
{
    let limited = input.get_text("address").is_some();
    let ghost all = p.graph@;
    let ghost only = text::opt_text(*resolved);
    let mut out = String::new();
    let mut i: usize = 0;
    assert(all.take(0) =~= Seq::<Node>::empty());
    while i < p.graph.len()
        invariant
            i <= all.len(),
            all == p.graph@,
            only == text::opt_text(*resolved),
            out@ == graph_text(*p, all.take(i as int), limited, only),
        decreases all.len() - i,
    {
        assert(all.take(i + 1).drop_last() =~= all.take(i as int));
        match node_of(p, &p.graph[i], limited, resolved) {
            Some(t) => {
                out.append(&t);
            },
            None => {},
        }
        i = i + 1;
    }
    assert(all.take(all.len() as int) =~= all);
    if out.as_str().is_empty() {
        return done("no matching buckets\n".to_owned());
    }
    done(out)
}

// ------------------------------------------------------------------- editing

/// The edit of one body.
pub open spec fn edit_step(p: Program, input: JsonView, resolved: Option<Seq<char>>) -> StepView {
    let address = arg(input, "address"@);
    match resolved {
        None => unknown(address),
        Some(target) => StepView::Splice(
            EditView {
                address,
                body: arg(input, "body"@),
                description: json::get_text(input, "description"@),
                target,
                span: span_of(p, resolved),
            },
        ),
    }
}

fn edit_bucket(p: &Program, input: &Json, resolved: &Option<String>) -> (r: Step)
    ensures
        r@ == edit_step(*p, input@, text::opt_text(*resolved)),
{
    let address = input.get_text_or_empty("address");
    match resolved {
        None => refuse_unknown(&address),
        Some(target) => Step::Splice(
            Edit {
                address,
                body: input.get_text_or_empty("body"),
                description: opt_arg(input, "description"),
                target: target.clone(),
                span: find_span(p, target),
            },
        ),
    }
}

impl EditView {
    /// The source with the edit in it: the body was spliced, and the description
    /// is rewritten in the same pass, since it is part of the edit.
    pub open spec fn candidate(self, spliced: Seq<char>) -> Seq<char> {
        match (self.description, self.span) {
            (Some(d), Some(span)) => surgery::redescribed(spliced, span, d),
            _ => spliced,
        }
    }

    /// The description can be found in the spliced source.
    pub open spec fn can_describe(self, spliced: Seq<char>) -> bool {
        match (self.description, self.span) {
            (Some(_), Some(span)) => surgery::brace_fits(spliced, span),
            _ => true,
        }
    }
}

impl Edit {
    /// Whether the description can be found in the spliced source.
    pub fn describable(&self, spliced: &str) -> (r: bool)
        ensures
            r == self@.can_describe(spliced@),
    {
        match (&self.description, self.span) {
            (Some(_), Some(span)) => surgery::has_brace(spliced, span),
            _ => true,
        }
    }

    /// The candidate source that has to pass the gates.
    pub fn candidate(&self, spliced: String) -> (r: String)
        requires
            self@.can_describe(spliced@),
        ensures
            r@ == self@.candidate(spliced@),
    {
        match (&self.description, self.span) {
            (Some(d), Some(span)) => surgery::replace_description(&spliced, span, d),
            _ => spliced,
        }
    }
}

// ------------------------------------------------------------------ patching

/// A body with the first occurrence of a snippet replaced.
pub open spec fn patched_body(body: Seq<char>, find: Seq<char>, replace: Seq<char>) -> Seq<char> {
    let i = text::next_match(body, find, 0);
    body.take(i) + replace + body.skip(i + find.len())
}

/// The source with another body.
pub open spec fn with_body(s: Seq<char>, a: int, b: int, body: Seq<char>) -> Seq<char> {
    s.take(a) + body + s.skip(b)
}

/// The annotations of a declaration whose tests are replaced: the new tests,
/// and the entry mark if it was there.
pub open spec fn retested(s: Seq<char>, a: int, lines: Seq<Seq<char>>) -> Seq<Seq<char>> {
    if surgery::has_entry(surgery::annotations(s, a)) {
        lines.push("@entry"@)
    } else {
        lines
    }
}

/// The candidate of a patch.
pub open spec fn patch_candidate(
    s: Seq<char>,
    bucket: Bucket,
    target: Seq<char>,
    span: Span,
    input: JsonView,
    body: Seq<char>,
) -> Result<Seq<char>, Seq<char>> {
    let a = surgery::first_char(s, span);
    let b = surgery::end_char(s, span);
    let desc = json::get_text(input, "description"@);
    match json::get(input, "tests"@) {
        // New tests land in one change with the body: applying them separately
        // deadlocks.
        Some(_) => match surgery::test_lines(json::get_items(input, "tests"@)) {
            Err(e) => Err(e),
            Ok(lines) => Ok(
                surgery::with_decl(
                    s,
                    a,
                    b,
                    surgery::declaration(
                        retested(s, a, lines),
                        program::label_or(bucket, target),
                        program::param_list(bucket.params@),
                        bucket.ret@,
                        text::or_else(desc, bucket.desc@),
                        text::trim_end(body),
                    ),
                ),
            ),
        },
        None => {
            let plain = with_body(s, a, b, body);
            match desc {
                None => Ok(plain),
                Some(d) => match surgery::described(
                    plain,
                    text::fitting(s, surgery::brace_offset(span)) as int,
                    d,
                ) {
                    Some(t) => Ok(t),
                    None => Ok(plain),
                },
            }
        },
    }
}

/// A surgical body edit: only the fragment that changes is given. Ambiguity is
/// an error, not a coin flip: replacing "the first one" is how a patch silently
/// changes the wrong thing.
pub open spec fn patch_step(
    s: Seq<char>,
    p: Program,
    input: JsonView,
    resolved: Option<Seq<char>>,
) -> StepView {
    let address = arg(input, "address"@);
    let find = arg(input, "find"@);
    if find.len() == 0 {
        StepView::Done("`find` cannot be empty"@, true)
    } else {
        match resolved {
            None => unknown(address),
            Some(target) => match (
                program::bucket_at(p.buckets@, target),
                span_of(p, resolved),
            ) {
                (Some(bucket), Some(span)) => {
                    let body = surgery::body_text(s, span);
                    let hits = text::match_count(body, find, 0);
                    if hits == 0 {
                        StepView::Done(
                            "`find` does not appear in the body of "@ + address
                                + ". The body, exactly as written:\n---\n"@ + text::trim(body)
                                + "\n---"@,
                            true,
                        )
                    } else if hits > 1 {
                        StepView::Done(
                            "`find` appears "@ + text::decimal(hits) + " times in "@ + address
                                + "; include enough surrounding text to make it unique. The body is:\n"@
                                + text::trim(body),
                            true,
                        )
                    } else {
                        match patch_candidate(
                            s,
                            bucket,
                            target,
                            span,
                            input,
                            patched_body(body, find, arg(input, "replace"@)),
                        ) {
                            Ok(c) => StepView::Check(c, KindView::Patched(address, target)),
                            Err(e) => StepView::Done(e, true),
                        }
                    }
                },
                _ => StepView::Done(
                    address + " has no editable body here (it may be a core or an import)"@,
                    true,
                ),
            },
        }
    }
}

fn patch(body: &[char], find: &[char], replace: &str, at: usize) -> (r: String)
    requires
        find@.len() > 0,
        text::occurs_at(body@, find@, at as int),
        at == text::next_match(body@, find@, 0),
    ensures
        r@ == patched_body(body@, find@, replace@),
{
    let mut s = text::string_of(body, 0, at);
    assert(body@.subrange(0, at as int) =~= body@.take(at as int));
    s.append(replace);
    let n: usize = body.len();
    let end: usize = at + find.len();
    s.append(&text::string_of(body, end, n));
    assert(body@.subrange(end as int, body@.len() as int) =~= body@.skip(end as int));
    s
}

fn replace_body(v: &[char], a: usize, b: usize, body: &str) -> (r: String)
    requires
        a <= b <= v@.len(),
    ensures
        r@ == with_body(v@, a as int, b as int, body@),
        a <= r@.len(),
{
    let mut s = text::string_of(v, 0, a);
    assert(v@.subrange(0, a as int) =~= v@.take(a as int));
    s.append(body);
    s.append(&text::string_of(v, b, v.len()));
    assert(v@.subrange(b as int, v@.len() as int) =~= v@.skip(b as int));
    s
}

fn retest(v: &[char], a: usize, b: usize, lines: Vec<String>) -> (r: Vec<String>)
    requires
        a <= b <= v@.len(),
    ensures
        text::texts(r@) == retested(v@, a as int, text::texts(lines@)),
{
    let mut out = lines;
    if surgery::marks_entry(&surgery::decl_annotations(v, a, b)) {
        out.push("@entry".to_owned());
        assert(text::texts(out@) =~= text::texts(lines@).push("@entry"@));
    }
    out
}

fn tests_in(input: &Json) -> (r: Result<Vec<String>, String>)
    ensures
        match r {
            Ok(lines) => surgery::test_lines(json::get_items(input@, "tests"@)) == Ok::<
                Seq<Seq<char>>,
                Seq<char>,
            >(text::texts(lines@)),
            Err(e) => surgery::test_lines(json::get_items(input@, "tests"@)) == Err::<
                Seq<Seq<char>>,
                Seq<char>,
            >(e@),
        },
{
    match input.get_items("tests") {
        Some(items) => surgery::render_tests(items),
        None => {
            let none: Vec<String> = Vec::new();
            assert(text::texts(none@) =~= Seq::<Seq<char>>::empty());
            Ok(none)
        },
    }
}

fn patch_source(
    source: &str,
    bucket: &Bucket,
    target: &str,
    span: Span,
    input: &Json,
    body: &str,
) -> (r: Result<String, String>)
    requires
        surgery::span_fits(source@, span),
        json::get_text(input@, "description"@) is Some ==> surgery::brace_fits(source@, span),
    ensures
        text::answer(r) == patch_candidate(source@, *bucket, target@, span, input@, body@),
{
    let v = text::chars_of(source);
    let (a, b) = match surgery::locate(&v, span) {
        Some(r) => r,
        None => (0, 0),
    };
    let desc = opt_arg(input, "description");
    if input.get("tests").is_some() {
        let lines = match tests_in(input) {
            Ok(lines) => lines,
            Err(e) => {
                return Err(e);
            },
        };
        let decl = surgery::declaration_of(
            &retest(&v, a, b, lines),
            &text::text_or(&bucket.label, target),
            &program::params_of(&bucket.params),
            &bucket.ret,
            &text::text_or(&desc, &bucket.desc),
            &text::trimmed_end(body),
        );
        return Ok(surgery::splice_decl(&v, a, b, Some(&decl)));
    }
    let plain = replace_body(&v, a, b, body);
    match &desc {
        Some(d) => {
            let offset: usize = if span.start > 0 {
                span.start - 1
            } else {
                0
            };
            let k: usize = match text::char_index(&v, offset) {
                Some(k) => k,
                None => 0,
            };
            proof {
                surgery::lemma_span_order(source@, Span { start: offset, end: span.start });
            }
            let w = text::chars_of(&plain);
            match surgery::describe(&w, k, d) {
                Some(t) => Ok(t),
                None => Ok(plain),
            }
        },
        None => Ok(plain),
    }
}

fn patch_bucket(source: &str, p: &Program, input: &Json, resolved: &Option<String>) -> (r: Step)
    requires
        match span_of(*p, text::opt_text(*resolved)) {
            Some(span) => surgery::span_fits(source@, span) && (json::get_text(
                input@,
                "description"@,
            ) is Some ==> surgery::brace_fits(source@, span)),
            None => true,
        },
    ensures
        r@ == patch_step(source@, *p, input@, text::opt_text(*resolved)),
{
    let address = input.get_text_or_empty("address");
    let find = input.get_text_or_empty("find");
    if find.as_str().is_empty() {
        return refuse("`find` cannot be empty".to_owned());
    }
    let target = match resolved {
        Some(t) => t,
        None => {
            return refuse_unknown(&address);
        },
    };
    let (bucket, span) = match (p.get(target), find_span(p, target)) {
        (Some(bucket), Some(span)) => (bucket, span),
        _ => {
            let mut s = address;
            s.append(" has no editable body here (it may be a core or an import)");
            return refuse(s);
        },
    };
    let v = text::chars_of(source);
    let (a, b) = match surgery::locate(&v, span) {
        Some(r) => r,
        None => (0, 0),
    };
    let body = text::string_of(&v, a, b);
    assert(body@ == surgery::body_text(source@, span));
    let w = text::chars_of(&body);
    let f = text::chars_of(&find);
    let hits: usize = text::count_matches(&w, &f);
    if hits == 0 {
        let mut s = "`find` does not appear in the body of ".to_owned();
        s.append(&address);
        s.append(". The body, exactly as written:\n---\n");
        s.append(&text::trimmed(&body));
        s.append("\n---");
        return refuse(s);
    }
    if hits > 1 {
        let mut s = "`find` appears ".to_owned();
        s.append(&text::decimal_of(hits as u64));
        s.append(" times in ");
        s.append(&address);
        s.append("; include enough surrounding text to make it unique. The body is:\n");
        s.append(&text::trimmed(&body));
        return refuse(s);
    }
    let at: usize = match text::find_match(&w, &f, 0) {
        Some(i) => i,
        None => 0,
    };
    let new_body = patch(&w, &f, &input.get_text_or_empty("replace"), at);
    match patch_source(source, bucket, target, span, input, &new_body) {
        Ok(c) => Step::Check(c, Kind::Patched(address, target.clone())),
        Err(e) => refuse(e),
    }
}

// ------------------------------------------------------------------ deleting

/// The callers of a bucket other than itself.
pub open spec fn others(called_by: Seq<Seq<char>>, target: Seq<char>) -> Seq<Seq<char>> {
    called_by.filter(|c: Seq<char>| c != target)
}

/// The names of the buckets that still call one.
pub open spec fn callers(p: Program, target: Seq<char>) -> Seq<Seq<char>> {
    match program::node_at(p.graph@, target) {
        Some(n) => names(p.buckets@, others(text::texts(n.called_by@), target)),
        None => Seq::empty(),
    }
}

/// The removal of a bucket. It is refused while anything still calls it, so that
/// the failure names the callers instead of surfacing as a confusing compile
/// error.
pub open spec fn delete_step(
    s: Seq<char>,
    p: Program,
    input: JsonView,
    resolved: Option<Seq<char>>,
) -> StepView {
    let address = arg(input, "address"@);
    match resolved {
        None => unknown(address),
        Some(target) => if callers(p, target).len() > 0 {
            StepView::Done(
                address + " is still called by "@ + text::joined(callers(p, target), ", "@)
                    + ". Change those first."@,
                true,
            )
        } else {
            match span_of(p, resolved) {
                None => StepView::Done("cannot locate the declaration of "@ + address, true),
                Some(span) => StepView::Check(
                    surgery::without_decl(
                        s,
                        surgery::first_char(s, span),
                        surgery::end_char(s, span),
                    ),
                    KindView::Deleted(address),
                ),
            }
        },
    }
}

fn others_of(called_by: &Vec<String>, target: &str) -> (r: Vec<String>)
    ensures
        text::texts(r@) == others(text::texts(called_by@), target@),
{
    let ghost all = text::texts(called_by@);
    let ghost keep = |c: Seq<char>| c != target@;
    let mut out: Vec<String> = Vec::new();
    let mut i: usize = 0;
    proof {
        reveal(Seq::filter);
        assert(all.take(0).filter(keep) =~= text::texts(out@));
    }
    while i < called_by.len()
        invariant
            i <= called_by@.len(),
            all == text::texts(called_by@),
            keep == (|c: Seq<char>| c != target@),
            text::texts(out@) == all.take(i as int).filter(keep),
        decreases called_by@.len() - i,
    {
        proof {
            text::lemma_filter_step(all, keep, i as int);
        }
        if !text::same(&called_by[i], target) {
            let ghost before = text::texts(out@);
            out.push(called_by[i].clone());
            assert(text::texts(out@) =~= before.push(all[i as int]));
        }
        i = i + 1;
    }
    assert(all.take(called_by@.len() as int) =~= all);
    out
}

fn callers_of(p: &Program, target: &str) -> (r: Vec<String>)
    ensures
        text::texts(r@) == callers(*p, target@),
        r@.len() == callers(*p, target@).len(),
{
    let r = match p.node(target) {
        Some(n) => names_of(p, &others_of(&n.called_by, target)),
        None => Vec::new(),
    };
    assert(text::texts(r@) =~= callers(*p, target@));
    assert(text::texts(r@).len() == r@.len());
    r
}

fn delete_bucket(source: &str, p: &Program, input: &Json, resolved: &Option<String>) -> (r: Step)
    requires
        match span_of(*p, text::opt_text(*resolved)) {
            Some(span) => surgery::span_fits(source@, span),
            None => true,
        },
    ensures
        r@ == delete_step(source@, *p, input@, text::opt_text(*resolved)),
{
    let address = input.get_text_or_empty("address");
    let target = match resolved {
        Some(t) => t,
        None => {
            return refuse_unknown(&address);
        },
    };
    let still = callers_of(p, target);
    if still.len() > 0 {
        let mut s = address;
        s.append(" is still called by ");
        s.append(&text::join(&still, ", "));
        s.append(". Change those first.");
        return refuse(s);
    }
    let span = match find_span(p, target) {
        Some(span) => span,
        None => {
            let mut s = "cannot locate the declaration of ".to_owned();
            s.append(&address);
            return refuse(s);
        },
    };
    let v = text::chars_of(source);
    let (a, b) = match surgery::locate(&v, span) {
        Some(r) => r,
        None => (0, 0),
    };
    Step::Check(surgery::splice_decl(&v, a, b, None), Kind::Deleted(address))
}

// --------------------------------------------------------- signature and tests

/// A parameter that was given by its name and type; `None` where one is missing.
pub open spec fn given_param(v: JsonView) -> Option<Seq<char>> {
    match (json::get_text(v, "name"@), json::get_text(v, "type"@)) {
        (Some(n), Some(t)) => Some(n + ": "@ + t),
        _ => None,
    }
}

/// The parameters that were given.
pub open spec fn given_params(items: Seq<JsonView>) -> Seq<Seq<char>>
    decreases items.len(),
{
    if items.len() == 0 {
        Seq::empty()
    } else {
        let rest = given_params(items.drop_last());
        match given_param(items.last()) {
            Some(p) => rest.push(p),
            None => rest,
        }
    }
}

fn params_in(items: &Vec<Json>) -> (r: String)
    ensures
        r@ == text::joined(given_params(json::trees(items@)), ", "@),
{
    let ghost all = json::trees(items@);
    let mut out: Vec<String> = Vec::new();
    let mut i: usize = 0;
    assert(all.take(0) =~= Seq::<JsonView>::empty());
    assert(text::texts(out@) =~= Seq::<Seq<char>>::empty());
    while i < items.len()
        invariant
            i <= items@.len(),
            all == json::trees(items@),
            text::texts(out@) == given_params(all.take(i as int)),
        decreases items@.len() - i,
    {
        assert(all.take(i + 1).drop_last() =~= all.take(i as int));
        assert(all.take(i + 1).last() == items@[i as int]@);
        match (items[i].get_text("name"), items[i].get_text("type")) {
            (Some(n), Some(t)) => {
                let mut s = n.clone();
                s.append(": ");
                s.append(t);
                let ghost before = text::texts(out@);
                out.push(s);
                assert(text::texts(out@) =~= before.push(s@));
            },
            _ => {},
        }
        i = i + 1;
    }
    assert(all.take(items@.len() as int) =~= all);
    text::join(&out, ", ")
}

/// The label that a bucket gets: the one given, or the one it has.
pub open spec fn new_label(b: Bucket, target: Seq<char>, input: JsonView) -> Seq<char> {
    match json::get_text(input, "label"@) {
        Some(l) => text::trim(l),
        None => program::label_or(b, target),
    }
}

/// The parameters that a bucket gets: those given, or those it has.
pub open spec fn new_params(b: Bucket, input: JsonView) -> Seq<char> {
    match json::get(input, "params"@) {
        Some(JsonView::Array(items)) => text::joined(given_params(items), ", "@),
        _ => program::param_list(b.params@),
    }
}

/// The return type that a bucket gets: the one given, or the one it has.
pub open spec fn new_return(b: Bucket, input: JsonView) -> Seq<char> {
    text::or_else(json::get_text(input, "returns"@), b.ret@)
}

/// Another signature for a bucket, with its annotations, description and body
/// kept.
pub open spec fn signature_step(
    s: Seq<char>,
    p: Program,
    input: JsonView,
    resolved: Option<Seq<char>>,
) -> StepView {
    let address = arg(input, "address"@);
    match resolved {
        None => unknown(address),
        Some(target) => match program::bucket_at(p.buckets@, target) {
            None => unknown(address),
            Some(bucket) => match bucket.body {
                None => StepView::Done(address + " has no editable declaration here"@, true),
                Some(span) => {
                    let a = surgery::first_char(s, span);
                    let label = new_label(bucket, target, input);
                    let params = new_params(bucket, input);
                    let ret = new_return(bucket, input);
                    StepView::Check(
                        surgery::with_decl(
                            s,
                            a,
                            surgery::end_char(s, span),
                            surgery::declaration(
                                surgery::annotations(s, a),
                                label,
                                params,
                                ret,
                                bucket.desc@,
                                text::trim_end(surgery::body_text(s, span)),
                            ),
                        ),
                        KindView::Resigned(
                            target,
                            address + " is now "@ + label + "("@ + params + ") -> "@ + ret + "."@,
                        ),
                    )
                },
            },
        },
    }
}

fn set_signature(source: &str, p: &Program, input: &Json, resolved: &Option<String>) -> (r: Step)
    requires
        match span_of(*p, text::opt_text(*resolved)) {
            Some(span) => surgery::span_fits(source@, span),
            None => true,
        },
    ensures
        r@ == signature_step(source@, *p, input@, text::opt_text(*resolved)),
{
    let address = input.get_text_or_empty("address");
    let target = match resolved {
        Some(t) => t,
        None => {
            return refuse_unknown(&address);
        },
    };
    let bucket = match p.get(target) {
        Some(b) => b,
        None => {
            return refuse_unknown(&address);
        },
    };
    let label = match input.get_text("label") {
        Some(l) => text::trimmed(l),
        None => text::text_or(&bucket.label, target),
    };
    let params = match input.get_items("params") {
        Some(items) => params_in(items),
        None => program::params_of(&bucket.params),
    };
    let ret = match input.get_text("returns") {
        Some(t) => t.clone(),
        None => bucket.ret.clone(),
    };
    let span = match bucket.body {
        Some(span) => span,
        None => {
            let mut s = address;
            s.append(" has no editable declaration here");
            return refuse(s);
        },
    };
    let v = text::chars_of(source);
    let (a, b) = match surgery::locate(&v, span) {
        Some(r) => r,
        None => (0, 0),
    };
    let body = text::trimmed_end(&text::string_of(&v, a, b));
    let decl = surgery::declaration_of(
        &surgery::decl_annotations(&v, a, b),
        &label,
        &params,
        &ret,
        &bucket.desc,
        &body,
    );
    let mut note = address;
    note.append(" is now ");
    note.append(&label);
    note.append("(");
    note.append(&params);
    note.append(") -> ");
    note.append(&ret);
    note.append(".");
    Step::Check(
        surgery::splice_decl(&v, a, b, Some(&decl)),
        Kind::Resigned(target.clone(), note),
    )
}

/// Another set of tests for a bucket. Only the `@test` lines are replaced.
pub open spec fn tests_step(
    s: Seq<char>,
    p: Program,
    input: JsonView,
    resolved: Option<Seq<char>>,
) -> StepView {
    let address = arg(input, "address"@);
    match resolved {
        None => unknown(address),
        Some(target) => match surgery::test_lines(json::get_items(input, "tests"@)) {
            Err(e) => StepView::Done(e, true),
            Ok(lines) => match (program::bucket_at(p.buckets@, target), span_of(p, resolved)) {
                (Some(bucket), Some(span)) => {
                    let a = surgery::first_char(s, span);
                    StepView::Check(
                        surgery::with_decl(
                            s,
                            a,
                            surgery::end_char(s, span),
                            surgery::declaration(
                                retested(s, a, lines),
                                program::label_or(bucket, target),
                                program::param_list(bucket.params@),
                                bucket.ret@,
                                bucket.desc@,
                                text::trim_end(surgery::body_text(s, span)),
                            ),
                        ),
                        KindView::Retested(address, target, lines.len()),
                    )
                },
                _ => StepView::Done(address + " has no editable declaration here"@, true),
            },
        },
    }
}

fn set_tests(source: &str, p: &Program, input: &Json, resolved: &Option<String>) -> (r: Step)
    requires
        match span_of(*p, text::opt_text(*resolved)) {
            Some(span) => surgery::span_fits(source@, span),
            None => true,
        },
    ensures
        r@ == tests_step(source@, *p, input@, text::opt_text(*resolved)),
{
    let address = input.get_text_or_empty("address");
    let target = match resolved {
        Some(t) => t,
        None => {
            return refuse_unknown(&address);
        },
    };
    let lines = match tests_in(input) {
        Ok(lines) => lines,
        Err(e) => {
            return refuse(e);
        },
    };
    let count: usize = lines.len();
    assert(text::texts(lines@).len() == count);
    let (bucket, span) = match (p.get(target), find_span(p, target)) {
        (Some(bucket), Some(span)) => (bucket, span),
        _ => {
            let mut s = address;
            s.append(" has no editable declaration here");
            return refuse(s);
        },
    };
    let v = text::chars_of(source);
    let (a, b) = match surgery::locate(&v, span) {
        Some(r) => r,
        None => (0, 0),
    };
    let body = text::trimmed_end(&text::string_of(&v, a, b));
    let decl = surgery::declaration_of(
        &retest(&v, a, b, lines),
        &text::text_or(&bucket.label, target),
        &program::params_of(&bucket.params),
        &bucket.ret,
        &bucket.desc,
        &body,
    );
    Step::Check(
        surgery::splice_decl(&v, a, b, Some(&decl)),
        Kind::Retested(address, target.clone(), count),
    )
}

// -------------------------------------------------------------------- adding

/// The lines, each indented by two spaces and without trailing space.
pub open spec fn indented(lines: Seq<Seq<char>>) -> Seq<Seq<char>> {
    lines.map_values(|l: Seq<char>| "  "@ + text::trim_end(l))
}

/// The parameters of a bucket that is added.
pub open spec fn added_params(input: JsonView) -> Seq<char> {
    text::joined(given_params(json::get_items(input, "params"@)), ", "@)
}

/// The declaration of a bucket that is added, with the body indented the way
/// the rest of the file is written.
pub open spec fn added_decl(input: JsonView) -> Seq<char> {
    "\n"@ + text::trim(arg(input, "label"@)) + "("@ + added_params(input) + ") -> "@
        + text::or_else(json::get_text(input, "returns"@), "Num"@) + " \""@ + text::unquoted(
        arg(input, "description"@),
    ) + "\" {\n"@ + text::joined(
        indented(text::lines(text::trim(arg(input, "body"@)))),
        "\n"@,
    ) + "\n}\n"@
}

/// A new bucket, at the end of the source.
pub open spec fn add_step(s: Seq<char>, input: JsonView, resolved: Option<Seq<char>>) -> StepView {
    let label = text::trim(arg(input, "label"@));
    if label.len() == 0 {
        StepView::Done("label is required"@, true)
    } else if text::trim(arg(input, "description"@)).len() == 0 {
        StepView::Done(
            "a description is required — it is how this bucket is found and how it is summarised to other buckets"@,
            true,
        )
    } else if resolved is Some {
        StepView::Done(
            "a bucket named "@ + label + " already exists; use edit_bucket to change it"@,
            true,
        )
    } else {
        StepView::Check(
            text::trim_end(s) + "\n"@ + added_decl(input),
            KindView::Added(label),
        )
    }
}

fn indent(body: &str) -> (r: String)
    ensures
        r@ == text::joined(indented(text::lines(body@)), "\n"@),
{
    let lines = text::lines_of(body);
    let mut out: Vec<String> = Vec::new();
    let mut i: usize = 0;
    while i < lines.len()
        invariant
            i <= lines@.len(),
            out@.len() == i,
            forall|k: int|
                0 <= k < i ==> (#[trigger] out@[k])@ == "  "@ + text::trim_end(lines@[k]@),
        decreases lines@.len() - i,
    {
        let mut l = "  ".to_owned();
        l.append(&text::trimmed_end(&lines[i]));
        out.push(l);
        i = i + 1;
    }
    proof {
        let want = indented(text::lines(body@));
        assert(want.len() == out@.len());
        assert forall|k: int| 0 <= k < want.len() implies #[trigger] text::texts(out@)[k]
            == want[k] by {
            assert(text::texts(lines@)[k] == lines@[k]@);
            assert(out@[k]@ == "  "@ + text::trim_end(lines@[k]@));
        }
        assert(text::texts(out@) =~= want);
    }
    text::join(&out, "\n")
}

fn add_bucket(source: &str, input: &Json, resolved: &Option<String>) -> (r: Step)
    ensures
        r@ == add_step(source@, input@, text::opt_text(*resolved)),
{
    let label = text::trimmed(&input.get_text_or_empty("label"));
    if label.as_str().is_empty() {
        return refuse("label is required".to_owned());
    }
    let desc = input.get_text_or_empty("description");
    if text::trimmed(&desc).as_str().is_empty() {
        return refuse(
            "a description is required — it is how this bucket is found and how it is summarised to other buckets".to_owned(),
        );
    }
    if resolved.is_some() {
        let mut s = "a bucket named ".to_owned();
        s.append(&label);
        s.append(" already exists; use edit_bucket to change it");
        return refuse(s);
    }
    let params = match input.get_items("params") {
        Some(items) => params_in(items),
        None => {
            assert(json::get_items(input@, "params"@) =~= Seq::<JsonView>::empty());
            String::new()
        },
    };
    let ret = match input.get_text("returns") {
        Some(t) => t.clone(),
        None => "Num".to_owned(),
    };
    let mut added = "\n".to_owned();
    added.append(&label);
    added.append("(");
    added.append(&params);
    added.append(") -> ");
    added.append(&ret);
    added.append(" \"");
    added.append(&text::without_quotes(&desc));
    added.append("\" {\n");
    added.append(&indent(&text::trimmed(&input.get_text_or_empty("body"))));
    added.append("\n}\n");
    let mut candidate = text::trimmed_end(source);
    candidate.append("\n");
    candidate.append(&added);
    Step::Check(candidate, Kind::Added(label))
}

// ------------------------------------------------------------------ commands

/// The texts among the items.
pub open spec fn texts_among(items: Seq<JsonView>) -> Seq<Seq<char>>
    decreases items.len(),
{
    if items.len() == 0 {
        Seq::empty()
    } else {
        let rest = texts_among(items.drop_last());
        match items.last() {
            JsonView::Text(s) => rest.push(s),
            _ => rest,
        }
    }
}

/// A command to run.
pub open spec fn run_step(input: JsonView) -> StepView {
    let argv = texts_among(json::get_items(input, "argv"@));
    if argv.len() == 0 {
        StepView::Done("argv must be a non-empty array"@, true)
    } else {
        StepView::Run(argv)
    }
}

fn run_command(input: &Json) -> (r: Step)
    ensures
        r@ == run_step(input@),
{
    let none: Vec<Json> = Vec::new();
    let items = match input.get_items("argv") {
        Some(v) => v,
        None => &none,
    };
    let ghost all = json::get_items(input@, "argv"@);
    assert(json::trees(items@) =~= all);
    let mut argv: Vec<String> = Vec::new();
    let mut i: usize = 0;
    assert(all.take(0) =~= Seq::<JsonView>::empty());
    assert(text::texts(argv@) =~= Seq::<Seq<char>>::empty());
    while i < items.len()
        invariant
            i <= items@.len(),
            all == json::trees(items@),
            text::texts(argv@) == texts_among(all.take(i as int)),
        decreases items@.len() - i,
    {
        assert(all.take(i + 1).drop_last() =~= all.take(i as int));
        assert(all.take(i + 1).last() == items@[i as int]@);
        match &items[i] {
            Json::Text(s) => {
                let ghost before = text::texts(argv@);
                argv.push(s.clone());
                assert(text::texts(argv@) =~= before.push(s@));
            },
            _ => {},
        }
        i = i + 1;
    }
    assert(all.take(items@.len() as int) =~= all);
    assert(text::texts(argv@).len() == argv@.len());
    if argv.len() == 0 {
        return refuse("argv must be a non-empty array".to_owned());
    }
    Step::Run(argv)
}

// ------------------------------------------------------------------ dispatch

/// What to do for a tool call, given what its program compiled to and what the
/// name in it resolves to.
pub open spec fn next_step(
    s: Seq<char>,
    compiled: Result<Program, String>,
    call: ToolCallView,
    resolved: Option<Seq<char>>,
) -> StepView {
    match compiled {
        Err(e) => StepView::Done("the program does not currently compile:\n"@ + e@, true),
        Ok(p) => if call.name == "list_buckets"@ {
            StepView::Done(bucket_list(p.buckets@), false)
        } else if call.name == "find_buckets"@ {
            find_step(p, call.input)
        } else if call.name == "read_bucket"@ {
            read_step(s, p, call.input, resolved)
        } else if call.name == "run_tests"@ {
            StepView::RunTests
        } else if call.name == "edit_bucket"@ {
            edit_step(p, call.input, resolved)
        } else if call.name == "patch_bucket"@ {
            patch_step(s, p, call.input, resolved)
        } else if call.name == "delete_bucket"@ {
            delete_step(s, p, call.input, resolved)
        } else if call.name == "set_signature"@ {
            signature_step(s, p, call.input, resolved)
        } else if call.name == "set_tests"@ {
            tests_step(s, p, call.input, resolved)
        } else if call.name == "add_bucket"@ {
            add_step(s, call.input, resolved)
        } else if call.name == "bucket_graph"@ {
            graph_step(p, call.input, resolved)
        } else if call.name == "read_file"@ {
            StepView::ReadFile(arg(call.input, "path"@))
        } else if call.name == "write_file"@ {
            StepView::WriteFile(arg(call.input, "path"@), arg(call.input, "contents"@))
        } else if call.name == "run_command"@ {
            run_step(call.input)
        } else {
            StepView::Done("no such tool: "@ + call.name, true)
        },
    }
}

/// Take one tool call as far as it goes without the language, files, or
/// processes.
pub fn dispatch(
    ws: &Workspace,
    compiled: &Result<Program, String>,
    call: &ToolCall,
    resolved: &Option<String>,
) -> (r: Step)
    requires
        match *compiled {
            Ok(p) => ready(ws.now(), p, call@, text::opt_text(*resolved)),
            Err(_) => true,
        },
    ensures
        r@ == next_step(ws.now(), *compiled, call@, text::opt_text(*resolved)),
{
    let p = match compiled {
        Ok(p) => p,
        Err(e) => {
            let mut s = "the program does not currently compile:\n".to_owned();
            s.append(e);
            return refuse(s);
        },
    };
    let name = call.name.as_str();
    let input = &call.input;
    let source = ws.source.as_str();
    if text::same(name, "list_buckets") {
        done(render_bucket_list(p))
    } else if text::same(name, "find_buckets") {
        find_buckets(p, input)
    } else if text::same(name, "read_bucket") {
        read_bucket(source, p, input, resolved)
    } else if text::same(name, "run_tests") {
        Step::RunTests
    } else if text::same(name, "edit_bucket") {
        edit_bucket(p, input, resolved)
    } else if text::same(name, "patch_bucket") {
        patch_bucket(source, p, input, resolved)
    } else if text::same(name, "delete_bucket") {
        delete_bucket(source, p, input, resolved)
    } else if text::same(name, "set_signature") {
        set_signature(source, p, input, resolved)
    } else if text::same(name, "set_tests") {
        set_tests(source, p, input, resolved)
    } else if text::same(name, "add_bucket") {
        add_bucket(source, input, resolved)
    } else if text::same(name, "bucket_graph") {
        bucket_graph(p, input, resolved)
    } else if text::same(name, "read_file") {
        Step::ReadFile(input.get_text_or_empty("path"))
    } else if text::same(name, "write_file") {
        Step::WriteFile(input.get_text_or_empty("path"), input.get_text_or_empty("contents"))
    } else if text::same(name, "run_command") {
        run_command(input)
    } else {
        let mut s = "no such tool: ".to_owned();
        s.append(name);
        refuse(s)
    }
}

// ------------------------------------------------------------------ settling

/// Whether a change is accepted, and what is said of it.
pub open spec fn settlement(
    kind: KindView,
    before: Seq<(Seq<char>, Seq<char>)>,
    compiled: Result<Recompiled, String>,
) -> Result<Seq<char>, Seq<char>> {
    match kind {
        KindView::Patched(address, target) => match gate::change_verdict(
            before,
            compiled,
            0,
            0,
            seq![target],
        ) {
            Ok(n) => Ok("patched "@ + address + ". "@ + text::decimal(n) + " test(s) pass."@),
            Err(e) => Err(e),
        },
        KindView::Deleted(address) => match gate::change_verdict(
            before,
            compiled,
            0,
            1,
            Seq::empty(),
        ) {
            Ok(_) => Ok("deleted "@ + address + "."@),
            Err(e) => Err(e),
        },
        // Renaming changes the label, not the address, so the bucket's own hash
        // may move but nothing should appear or vanish.
        KindView::Resigned(target, note) => match gate::change_verdict(
            before,
            compiled,
            0,
            0,
            seq![target],
        ) {
            Ok(_) => Ok(note),
            Err(e) => Err(e),
        },
        KindView::Retested(address, target, count) => match gate::change_verdict(
            before,
            compiled,
            0,
            0,
            seq![target],
        ) {
            Ok(n) => Ok(
                address + " now has "@ + text::decimal(count) + " test(s); all "@ + text::decimal(n)
                    + " test(s) in the program pass."@,
            ),
            Err(e) => Err(e),
        },
        KindView::Added(label) => match gate::add_verdict(before, compiled, label) {
            Ok((address, n)) => Ok(
                "added "@ + label + " as "@ + address + ". All "@ + text::decimal(n)
                    + " test(s) still pass."@,
            ),
            Err(e) => Err(e),
        },
    }
}

fn one(s: &str) -> (r: Vec<String>)
    ensures
        text::texts(r@) == seq![s@],
{
    let mut v: Vec<String> = Vec::new();
    v.push(s.to_owned());
    assert(text::texts(v@) =~= seq![s@]);
    v
}

fn judge(
    kind: Kind,
    before: &Vec<(String, String)>,
    compiled: &Result<Recompiled, String>,
) -> (r: Result<String, String>)
    ensures
        text::answer(r) == settlement(kind@, gate::pairs(before@), *compiled),
{
    match kind {
        Kind::Patched(address, target) => match gate::check_change(
            before,
            compiled,
            0,
            0,
            &one(&target),
        ) {
            Ok(n) => {
                let mut s = "patched ".to_owned();
                s.append(&address);
                s.append(". ");
                s.append(&text::decimal_of(n as u64));
                s.append(" test(s) pass.");
                Ok(s)
            },
            Err(e) => Err(e),
        },
        Kind::Deleted(address) => {
            let none: Vec<String> = Vec::new();
            assert(text::texts(none@) =~= Seq::<Seq<char>>::empty());
            match gate::check_change(before, compiled, 0, 1, &none) {
                Ok(_) => {
                    let mut s = "deleted ".to_owned();
                    s.append(&address);
                    s.append(".");
                    Ok(s)
                },
                Err(e) => Err(e),
            }
        },
        Kind::Resigned(target, note) => match gate::check_change(
            before,
            compiled,
            0,
            0,
            &one(&target),
        ) {
            Ok(_) => Ok(note),
            Err(e) => Err(e),
        },
        Kind::Retested(address, target, count) => match gate::check_change(
            before,
            compiled,
            0,
            0,
            &one(&target),
        ) {
            Ok(n) => {
                let mut s = address;
                s.append(" now has ");
                s.append(&text::decimal_of(count as u64));
                s.append(" test(s); all ");
                s.append(&text::decimal_of(n as u64));
                s.append(" test(s) in the program pass.");
                Ok(s)
            },
            Err(e) => Err(e),
        },
        Kind::Added(label) => match gate::check_addition(before, compiled, &label) {
            Ok((address, n)) => {
                let mut s = "added ".to_owned();
                s.append(&label);
                s.append(" as ");
                s.append(&address);
                s.append(". All ");
                s.append(&text::decimal_of(n as u64));
                s.append(" test(s) still pass.");
                Ok(s)
            },
            Err(e) => Err(e),
        },
    }
}

/// What a verdict comes to.
pub open spec fn shown(verdict: Result<Seq<char>, Seq<char>>) -> (Seq<char>, bool) {
    match verdict {
        Ok(s) => (s, false),
        Err(e) => (e, true),
    }
}

impl Workspace {
    /// Take a change over if it passes the gates; `before` is what the program
    /// held before it. A change that is rejected leaves the source as it was.
    pub fn settle(
        &mut self,
        candidate: String,
        kind: Kind,
        before: &Vec<(String, String)>,
        compiled: &Result<Recompiled, String>,
    ) -> (r: Output)
        ensures
            r@ == shown(settlement(kind@, gate::pairs(before@), *compiled)),
            r.is_error ==> *final(self) == *old(self),
            !r.is_error ==> final(self).now() == candidate@ && final(self).changed(),
    {
        match judge(kind, before, compiled) {
            Ok(text) => {
                self.accept(candidate);
                Output { text, is_error: false }
            },
            Err(text) => Output { text, is_error: true },
        }
    }

    /// Take a body edit over if it passes the gates. A verdict after one that
    /// failed is not looked at. An edit that is rejected leaves the source as it
    /// was.
    pub fn settle_edit(
        &mut self,
        candidate: String,
        compiled: Result<(), String>,
        atomic: Result<(), String>,
        tests: Result<(usize, usize), String>,
    ) -> (r: Output)
        ensures
            r@ == shown(gate::edit_verdict(compiled, atomic, tests)),
            r.is_error ==> *final(self) == *old(self),
            !r.is_error ==> final(self).now() == candidate@ && final(self).changed(),
    {
        match gate::check_edit(compiled, atomic, tests) {
            Ok(text) => {
                self.accept(candidate);
                Output { text, is_error: false }
            },
            Err(text) => Output { text, is_error: true },
        }
    }
}

// ---------------------------------------------------------------------- laws

/// Whatever a change is meant to do, it is accepted only when the program
/// compiles and every test passes, and then no bucket differs that was there
/// before, is still there, and is not its target.
pub proof fn law_accepted_change_passed_every_gate(
    kind: KindView,
    before: Seq<(Seq<char>, Seq<char>)>,
    compiled: Result<Recompiled, String>,
)
    requires
        settlement(kind, before, compiled) is Ok,
    ensures
        compiled is Ok,
        forall|i: int|
            0 <= i < compiled->Ok_0.tests@.len() ==> (
            #[trigger] compiled->Ok_0.tests@[i]).passes(),
        forall|i: int|
            0 <= i < before.len() && target_of(kind) != Some((#[trigger] before[i]).0) ==> {
                let after = gate::hash_of(gate::pairs(compiled->Ok_0.hashes@), before[i].0);
                after == Some(before[i].1) || (kind is Deleted && after is None)
            },
{
    let c = compiled->Ok_0;
    match kind {
        KindView::Added(label) => {
            gate::law_accepted_addition_disturbs_nothing(before, compiled, label);
        },
        KindView::Deleted(_) => {
            let meant = Seq::<Seq<char>>::empty();
            gate::law_accepted_change_is_clean(before, compiled, 0, 1, meant);
            assert forall|i: int| 0 <= i < before.len() implies !meant.contains(
                (#[trigger] before[i]).0,
            ) by {}
        },
        KindView::Patched(_, t) => {
            lemma_only_target(before, compiled, t);
        },
        KindView::Resigned(t, _) => {
            lemma_only_target(before, compiled, t);
        },
        KindView::Retested(_, t, _) => {
            lemma_only_target(before, compiled, t);
        },
    }
}

/// The bucket that a change is meant to change in place.
pub open spec fn target_of(kind: KindView) -> Option<Seq<char>> {
    match kind {
        KindView::Patched(_, t) => Some(t),
        KindView::Resigned(t, _) => Some(t),
        KindView::Retested(_, t, _) => Some(t),
        KindView::Deleted(_) => None,
        KindView::Added(_) => None,
    }
}

proof fn lemma_only_target(
    before: Seq<(Seq<char>, Seq<char>)>,
    compiled: Result<Recompiled, String>,
    target: Seq<char>,
)
    requires
        gate::change_verdict(before, compiled, 0, 0, seq![target]) is Ok,
    ensures
        compiled is Ok,
        forall|i: int|
            0 <= i < compiled->Ok_0.tests@.len() ==> (
            #[trigger] compiled->Ok_0.tests@[i]).passes(),
        forall|i: int|
            0 <= i < before.len() && (#[trigger] before[i]).0 != target ==> gate::hash_of(
                gate::pairs(compiled->Ok_0.hashes@),
                before[i].0,
            ) == Some(before[i].1),
{
    let meant = seq![target];
    gate::law_accepted_change_is_clean(before, compiled, 0, 0, meant);
    assert forall|i: int| 0 <= i < before.len() && (#[trigger] before[i]).0 != target implies {
        gate::hash_of(gate::pairs(compiled->Ok_0.hashes@), before[i].0) == Some(before[i].1)
    } by {
        assert(!meant.contains(before[i].0));
    }
}

/// A call on a program that does not compile comes back at once as an error that
/// says so, whatever it asks for.
pub proof fn law_broken_program_is_reported(
    s: Seq<char>,
    e: String,
    call: ToolCallView,
    resolved: Option<Seq<char>>,
)
    ensures
        next_step(s, Err(e), call, resolved) == StepView::Done(
            "the program does not currently compile:\n"@ + e@,
            true,
        ),
{
}

/// What a read shows can be patched: a snippet of the shown body is found in the
/// body itself.
pub proof fn law_shown_text_can_be_patched(body: Seq<char>, find: Seq<char>)
    requires
        find.len() > 0,
        text::contains_text(text::trim_end(body), find),
    ensures
        text::match_count(body, find, 0) > 0,
{
    lemma_trim_end_is_prefix(body);
    let t = text::trim_end(body);
    let i = choose|i: int| #[trigger] text::occurs_at(t, find, i);
    assert(t.subrange(i, i + find.len()) =~= body.subrange(i, i + find.len()));
    lemma_match_found(body, find, 0, i);
}

proof fn lemma_trim_end_is_prefix(s: Seq<char>)
    ensures
        text::trim_end(s).len() <= s.len(),
        text::trim_end(s) == s.take(text::trim_end(s).len() as int),
    decreases s.len(),
{
    if s.len() > 0 && text::is_white(s.last()) {
        lemma_trim_end_is_prefix(s.drop_last());
        let n = text::trim_end(s).len() as int;
        assert(s.drop_last().take(n) =~= s.take(n));
    } else {
        assert(s.take(s.len() as int) =~= s);
    }
}

proof fn lemma_match_found(s: Seq<char>, pat: Seq<char>, from: int, i: int)
    requires
        0 <= from <= i,
        text::occurs_at(s, pat, i),
    ensures
        text::next_match(s, pat, from) >= 0,
    decreases i - from,
{
    if !text::occurs_at(s, pat, from) {
        lemma_match_found(s, pat, from + 1, i);
    }
}

/// A patch replaces exactly the snippet: what stands before and after it in the
/// body stays, and so does everything outside the body.
pub proof fn law_patch_is_local(
    s: Seq<char>,
    a: int,
    b: int,
    find: Seq<char>,
    replace: Seq<char>,
)
    requires
        0 <= a <= b <= s.len(),
        find.len() > 0,
        text::match_count(s.subrange(a, b), find, 0) == 1,
    ensures
        ({
            let i = text::next_match(s.subrange(a, b), find, 0);
            &&& 0 <= i
            &&& a + i + find.len() <= b
            &&& s.subrange(a + i, a + i + find.len()) == find
            &&& with_body(s, a, b, patched_body(s.subrange(a, b), find, replace)) == s.take(a + i)
                + replace + s.skip(a + i + find.len())
        }),
{
    let body = s.subrange(a, b);
    text::lemma_next_match(body, find, 0);
    let i = text::next_match(body, find, 0);
    assert(body.subrange(i, i + find.len()) =~= s.subrange(a + i, a + i + find.len()));
    assert(with_body(s, a, b, patched_body(body, find, replace)) =~= s.take(a + i) + replace
        + s.skip(a + i + find.len()));
}

/// A patch that brings tests rewrites the declaration and keeps what it was not
/// asked to change: behind the new test lines, and the entry mark if there was
/// one, stand the bucket's own label, parameters and return type, its own
/// description where the call gives none, and the body with the snippet replaced
/// in it. What is around the declaration stays.
pub proof fn law_patch_with_tests_keeps_the_signature(
    s: Seq<char>,
    p: Program,
    input: JsonView,
    target: Seq<char>,
    bucket: Bucket,
    span: Span,
    lines: Seq<Seq<char>>,
    i: int,
)
    requires
        program::bucket_at(p.buckets@, target) == Some(bucket),
        bucket.body == Some(span),
        surgery::span_fits(s, span),
        json::get(input, "tests"@) is Some,
        surgery::test_lines(json::get_items(input, "tests"@)) == Ok::<Seq<Seq<char>>, Seq<char>>(
            lines,
        ),
        ({
            let body = surgery::body_text(s, span);
            let find = json::get_text_or_empty(input, "find"@);
            &&& find.len() > 0
            &&& text::match_count(body, find, 0) == 1
            &&& text::occurs_at(body, find, i)
            &&& forall|j: int| 0 <= j < i ==> !text::occurs_at(body, find, j)
        }),
    ensures
        ({
            let start = surgery::decl_start(s, surgery::first_char(s, span));
            let end = surgery::decl_end(s, surgery::end_char(s, span));
            let body = surgery::body_text(s, span);
            let find = json::get_text_or_empty(input, "find"@);
            let patched = body.subrange(0, i) + json::get_text_or_empty(input, "replace"@)
                + body.subrange(i + find.len(), body.len() as int);
            let annotations = surgery::block(lines) + if surgery::has_entry(
                surgery::annotations(s, surgery::first_char(s, span)),
            ) {
                "@entry"@ + "\n"@
            } else {
                Seq::empty()
            };
            let label = match bucket.label {
                Some(l) => l@,
                None => target,
            };
            let desc = match json::get(input, "description"@) {
                Some(JsonView::Text(d)) => d,
                _ => bucket.desc@,
            };
            &&& 0 <= start <= end <= s.len()
            &&& patch_step(s, p, input, Some(target)) == StepView::Check(
                s.subrange(0, start) + (annotations + label + "("@ + program::param_list(
                    bucket.params@,
                ) + ") -> "@ + bucket.ret@ + " \""@ + text::unquoted(desc) + "\" {"@
                    + text::trim_end(patched) + "\n}"@) + s.subrange(end, s.len() as int),
                KindView::Patched(json::get_text_or_empty(input, "address"@), target),
            )
        }),
{
    surgery::lemma_span_order(s, span);
    let a = surgery::first_char(s, span);
    let b = surgery::end_char(s, span);
    surgery::law_splicing_is_local(s, a, b);
    lemma_retested(s, a, lines);
    let body = surgery::body_text(s, span);
    let find = json::get_text_or_empty(input, "find"@);
    lemma_first_match(body, find, i);
    assert(patched_body(body, find, json::get_text_or_empty(input, "replace"@))
        =~= body.subrange(0, i) + json::get_text_or_empty(input, "replace"@) + body.subrange(
        i + find.len(),
        body.len() as int,
    ));
    let desc = match json::get(input, "description"@) {
        Some(JsonView::Text(d)) => d,
        _ => bucket.desc@,
    };
    assert(text::or_else(json::get_text(input, "description"@), bucket.desc@) == desc);
    assert(s.take(surgery::decl_start(s, a)) =~= s.subrange(0, surgery::decl_start(s, a)));
    assert(s.skip(surgery::decl_end(s, b)) =~= s.subrange(
        surgery::decl_end(s, b),
        s.len() as int,
    ));
}

proof fn lemma_retested(s: Seq<char>, a: int, lines: Seq<Seq<char>>)
    ensures
        surgery::block(retested(s, a, lines)) == surgery::block(lines) + if surgery::has_entry(
            surgery::annotations(s, a),
        ) {
            "@entry"@ + "\n"@
        } else {
            Seq::empty()
        },
{
    let entry = "@entry"@;
    assert(lines.push(entry).drop_last() =~= lines);
    assert(surgery::block(lines) + entry + "\n"@ =~= surgery::block(lines) + (entry + "\n"@));
    assert(surgery::block(lines) + Seq::<char>::empty() =~= surgery::block(lines));
}

proof fn lemma_first_match(s: Seq<char>, pat: Seq<char>, i: int)
    requires
        text::occurs_at(s, pat, i),
        forall|j: int| 0 <= j < i ==> !text::occurs_at(s, pat, j),
    ensures
        text::next_match(s, pat, 0) == i,
{
    text::law_next_match_is_the_first(s, pat, 0);
    assert(s.subrange(i, i + pat.len()) == pat);
    text::lemma_next_match(s, pat, 0);
}

/// A patch that brings neither tests nor a description replaces the snippet and
/// nothing else in the whole source.
pub proof fn law_plain_patch_replaces_the_snippet_alone(
    s: Seq<char>,
    p: Program,
    input: JsonView,
    target: Seq<char>,
    bucket: Bucket,
    span: Span,
    i: int,
)
    requires
        program::bucket_at(p.buckets@, target) == Some(bucket),
        bucket.body == Some(span),
        surgery::span_fits(s, span),
        json::get(input, "tests"@) is None,
        !(json::get(input, "description"@) matches Some(JsonView::Text(_))),
        ({
            let body = surgery::body_text(s, span);
            let find = json::get_text_or_empty(input, "find"@);
            &&& find.len() > 0
            &&& text::match_count(body, find, 0) == 1
            &&& text::occurs_at(body, find, i)
            &&& forall|j: int| 0 <= j < i ==> !text::occurs_at(body, find, j)
        }),
    ensures
        ({
            let at = surgery::first_char(s, span) + i;
            let find = json::get_text_or_empty(input, "find"@);
            &&& 0 <= at
            &&& at + find.len() <= s.len()
            &&& s.subrange(at, at + find.len()) == find
            &&& patch_step(s, p, input, Some(target)) == StepView::Check(
                s.subrange(0, at) + json::get_text_or_empty(input, "replace"@) + s.subrange(
                    at + find.len(),
                    s.len() as int,
                ),
                KindView::Patched(json::get_text_or_empty(input, "address"@), target),
            )
        }),
{
    surgery::lemma_span_order(s, span);
    let a = surgery::first_char(s, span);
    let b = surgery::end_char(s, span);
    let find = json::get_text_or_empty(input, "find"@);
    let replace = json::get_text_or_empty(input, "replace"@);
    let body = surgery::body_text(s, span);
    lemma_first_match(body, find, i);
    law_patch_is_local(s, a, b, find, replace);
    assert(s.take(a + i) =~= s.subrange(0, a + i));
    assert(s.skip(a + i + find.len()) =~= s.subrange(a + i + find.len(), s.len() as int));
}

/// A patch that brings a description and no tests replaces the snippet, and the
/// text between the last two quotes before the body, and nothing else.
pub proof fn law_patch_with_description_changes_both(
    before: Seq<char>,
    old_desc: Seq<char>,
    brace: Seq<char>,
    body: Seq<char>,
    after: Seq<char>,
    p: Program,
    input: JsonView,
    target: Seq<char>,
    bucket: Bucket,
    span: Span,
    desc: Seq<char>,
    i: int,
)
    requires
        program::bucket_at(p.buckets@, target) == Some(bucket),
        bucket.body == Some(span),
        !old_desc.contains('"'),
        !brace.contains('"'),
        span.start == text::size(
            before + seq!['"'] + old_desc + seq!['"'] + brace + seq!['{'],
        ),
        span.end == span.start + text::size(body),
        json::get(input, "tests"@) is None,
        json::get(input, "description"@) == Some(JsonView::Text(desc)),
        ({
            let find = json::get_text_or_empty(input, "find"@);
            &&& find.len() > 0
            &&& text::match_count(body, find, 0) == 1
            &&& text::occurs_at(body, find, i)
            &&& forall|j: int| 0 <= j < i ==> !text::occurs_at(body, find, j)
        }),
    ensures
        ({
            let s = before + seq!['"'] + old_desc + seq!['"'] + brace + seq!['{'] + body + after;
            let find = json::get_text_or_empty(input, "find"@);
            patch_step(s, p, input, Some(target)) == StepView::Check(
                before + seq!['"'] + text::unquoted(desc) + seq!['"'] + brace + (seq!['{']
                    + body.subrange(0, i) + json::get_text_or_empty(input, "replace"@)
                    + body.subrange(i + find.len(), body.len() as int) + after),
                KindView::Patched(json::get_text_or_empty(input, "address"@), target),
            )
        }),
{
    let head = before + seq!['"'] + old_desc + seq!['"'] + brace;
    let opened = head + seq!['{'];
    let s = opened + body + after;
    let find = json::get_text_or_empty(input, "find"@);
    let replace = json::get_text_or_empty(input, "replace"@);
    surgery::law_span_covers_its_body(opened, body, after, span);
    lemma_first_match(body, find, i);
    let new_body = body.subrange(0, i) + replace + body.subrange(i + find.len(), body.len() as int);
    assert(patched_body(body, find, replace) =~= new_body);
    let rest = seq!['{'] + body.subrange(0, i) + replace + body.subrange(
        i + find.len(),
        body.len() as int,
    ) + after;
    let a = surgery::first_char(s, span);
    let b = surgery::end_char(s, span);
    assert(with_body(s, a, b, new_body) =~= head + rest);
    text::lemma_size_add(head, seq!['{']);
    assert(seq!['{'].drop_last() =~= Seq::<char>::empty());
    assert(text::size(Seq::<char>::empty()) == 0);
    assert(text::size(seq!['{']) == 1);
    assert(s.take(head.len() as int) =~= head);
    text::lemma_boundary(s, head.len() as int);
    surgery::law_description_stands_between_the_last_quotes(before, old_desc, brace, rest, desc);
}

/// Setting the tests of a bucket rewrites its annotations and keeps all else of
/// the declaration: label, parameters, return type, description and body.
pub proof fn law_setting_tests_keeps_the_bucket(
    s: Seq<char>,
    p: Program,
    input: JsonView,
    target: Seq<char>,
    bucket: Bucket,
    span: Span,
    lines: Seq<Seq<char>>,
)
    requires
        program::bucket_at(p.buckets@, target) == Some(bucket),
        bucket.body == Some(span),
        surgery::span_fits(s, span),
        surgery::test_lines(json::get_items(input, "tests"@)) == Ok::<Seq<Seq<char>>, Seq<char>>(
            lines,
        ),
    ensures
        ({
            let start = surgery::decl_start(s, surgery::first_char(s, span));
            let end = surgery::decl_end(s, surgery::end_char(s, span));
            let annotations = surgery::block(lines) + if surgery::has_entry(
                surgery::annotations(s, surgery::first_char(s, span)),
            ) {
                "@entry"@ + "\n"@
            } else {
                Seq::empty()
            };
            let label = match bucket.label {
                Some(l) => l@,
                None => target,
            };
            tests_step(s, p, input, Some(target)) == StepView::Check(
                s.subrange(0, start) + (annotations + label + "("@ + program::param_list(
                    bucket.params@,
                ) + ") -> "@ + bucket.ret@ + " \""@ + text::unquoted(bucket.desc@) + "\" {"@
                    + text::trim_end(surgery::body_text(s, span)) + "\n}"@) + s.subrange(
                    end,
                    s.len() as int,
                ),
                KindView::Retested(
                    json::get_text_or_empty(input, "address"@),
                    target,
                    lines.len(),
                ),
            )
        }),
{
    surgery::lemma_span_order(s, span);
    let a = surgery::first_char(s, span);
    let b = surgery::end_char(s, span);
    surgery::law_splicing_is_local(s, a, b);
    lemma_retested(s, a, lines);
    assert(s.take(surgery::decl_start(s, a)) =~= s.subrange(0, surgery::decl_start(s, a)));
    assert(s.skip(surgery::decl_end(s, b)) =~= s.subrange(
        surgery::decl_end(s, b),
        s.len() as int,
    ));
}

/// A new signature replaces the label, the parameters and the return type as far
/// as each is given, and keeps each that is not. The annotations, the
/// description and the body are kept, and the reply tells the new signature.
pub proof fn law_new_signature_changes_what_is_given(
    s: Seq<char>,
    p: Program,
    input: JsonView,
    target: Seq<char>,
    bucket: Bucket,
    span: Span,
)
    requires
        program::bucket_at(p.buckets@, target) == Some(bucket),
        bucket.body == Some(span),
        surgery::span_fits(s, span),
    ensures
        ({
            let start = surgery::decl_start(s, surgery::first_char(s, span));
            let end = surgery::decl_end(s, surgery::end_char(s, span));
            let label = match (json::get(input, "label"@), bucket.label) {
                (Some(JsonView::Text(l)), _) => text::trim(l),
                (_, Some(l)) => l@,
                (_, None) => target,
            };
            let params = match json::get(input, "params"@) {
                Some(JsonView::Array(items)) => text::joined(given_params(items), ", "@),
                _ => program::param_list(bucket.params@),
            };
            let ret = match json::get(input, "returns"@) {
                Some(JsonView::Text(t)) => t,
                _ => bucket.ret@,
            };
            signature_step(s, p, input, Some(target)) == StepView::Check(
                s.subrange(0, start) + (surgery::block(
                    surgery::annotations(s, surgery::first_char(s, span)),
                ) + label + "("@ + params + ") -> "@ + ret + " \""@ + text::unquoted(bucket.desc@)
                    + "\" {"@ + text::trim_end(surgery::body_text(s, span)) + "\n}"@)
                    + s.subrange(end, s.len() as int),
                KindView::Resigned(
                    target,
                    json::get_text_or_empty(input, "address"@) + " is now "@ + label + "("@
                        + params + ") -> "@ + ret + "."@,
                ),
            )
        }),
{
    surgery::lemma_span_order(s, span);
    let a = surgery::first_char(s, span);
    let b = surgery::end_char(s, span);
    surgery::law_splicing_is_local(s, a, b);
    assert(s.take(surgery::decl_start(s, a)) =~= s.subrange(0, surgery::decl_start(s, a)));
    assert(s.skip(surgery::decl_end(s, b)) =~= s.subrange(
        surgery::decl_end(s, b),
        s.len() as int,
    ));
}

/// The parameters of a call: each item with a name and a type counts, in order,
/// and any other is passed over.
pub proof fn law_given_parameters_are_taken_in_order(a: Seq<JsonView>, b: Seq<JsonView>)
    ensures
        given_params(Seq::empty()) == Seq::<Seq<char>>::empty(),
        a.len() == 1 ==> given_params(a) == match (
            json::get(a[0], "name"@),
            json::get(a[0], "type"@),
        ) {
            (Some(JsonView::Text(n)), Some(JsonView::Text(t))) => seq![n + ": "@ + t],
            _ => Seq::empty(),
        },
        given_params(a + b) == given_params(a) + given_params(b),
    decreases b.len(),
{
    if a.len() == 1 {
        let none = Seq::<Seq<char>>::empty();
        assert(a.drop_last() =~= Seq::<JsonView>::empty());
        assert(given_params(a.drop_last()) =~= none);
        if let Some(t) = given_param(a[0]) {
            assert(none.push(t) =~= seq![t]);
        }
    }
    if b.len() == 0 {
        assert(a + b =~= a);
        assert(given_params(a) + given_params(b) =~= given_params(a));
    } else {
        law_given_parameters_are_taken_in_order(a, b.drop_last());
        assert((a + b).drop_last() =~= a + b.drop_last());
        assert((a + b).last() == b.last());
        assert(given_params(a + b) =~= given_params(a) + given_params(b));
    }
}

/// What is still called from elsewhere is not deleted: the call is refused, and
/// names the caller.
pub proof fn law_called_bucket_is_not_deleted(
    s: Seq<char>,
    p: Program,
    input: JsonView,
    target: Seq<char>,
    n: Node,
    i: int,
)
    requires
        program::node_at(p.graph@, target) == Some(n),
        0 <= i < n.called_by@.len(),
        n.called_by@[i]@ != target,
        program::bucket_at(p.buckets@, n.called_by@[i]@) is Some,
    ensures
        ({
            let b = program::bucket_at(p.buckets@, n.called_by@[i]@)->0;
            let caller = match b.label {
                Some(l) => l@,
                None => n.called_by@[i]@,
            };
            delete_step(s, p, input, Some(target)) matches StepView::Done(t, error) && error
                && text::contains_text(t, caller)
        }),
{
    let all = text::texts(n.called_by@);
    let rest = others(all, target);
    assert(all[i] == n.called_by@[i]@);
    let j = lemma_other_kept(all, target, i);
    let k = lemma_name_listed(p.buckets@, rest, j);
    let list = names(p.buckets@, rest);
    let address = arg(input, "address"@);
    let list_text = text::joined(list, ", "@);
    let at = lemma_joined_holds(list, ", "@, k);
    let t = address + " is still called by "@ + list_text + ". Change those first."@;
    let before = address + " is still called by "@;
    assert(t.subrange(before.len() + at, before.len() + at + list[k].len()) =~= list_text.subrange(
        at,
        at + list[k].len(),
    ));
    assert(text::occurs_at(t, list[k], before.len() + at));
}

proof fn lemma_other_kept(all: Seq<Seq<char>>, target: Seq<char>, i: int) -> (j: int)
    requires
        0 <= i < all.len(),
        all[i] != target,
    ensures
        0 <= j < others(all, target).len(),
        others(all, target)[j] == all[i],
    decreases all.len(),
{
    reveal(Seq::filter);
    if i == all.len() - 1 {
        others(all, target).len() - 1
    } else {
        lemma_other_kept(all.drop_last(), target, i)
    }
}

proof fn lemma_other_from(all: Seq<Seq<char>>, target: Seq<char>, j: int) -> (i: int)
    requires
        0 <= j < others(all, target).len(),
    ensures
        0 <= i < all.len(),
        all[i] == others(all, target)[j],
        all[i] != target,
    decreases all.len(),
{
    reveal(Seq::filter);
    if all.len() > 0 {
        if j < others(all.drop_last(), target).len() {
            lemma_other_from(all.drop_last(), target, j)
        } else {
            all.len() - 1
        }
    } else {
        0
    }
}

proof fn lemma_name_listed(buckets: Seq<Bucket>, addresses: Seq<Seq<char>>, j: int) -> (k: int)
    requires
        0 <= j < addresses.len(),
        program::bucket_at(buckets, addresses[j]) is Some,
    ensures
        0 <= k < names(buckets, addresses).len(),
        names(buckets, addresses)[k] == program::label_or(
            program::bucket_at(buckets, addresses[j])->0,
            addresses[j],
        ),
    decreases addresses.len(),
{
    if j == addresses.len() - 1 {
        names(buckets, addresses).len() - 1
    } else {
        lemma_name_listed(buckets, addresses.drop_last(), j)
    }
}

proof fn lemma_joined_holds(parts: Seq<Seq<char>>, sep: Seq<char>, k: int) -> (at: int)
    requires
        0 <= k < parts.len(),
    ensures
        text::occurs_at(text::joined(parts, sep), parts[k], at),
    decreases parts.len(),
{
    let t = text::joined(parts, sep);
    if parts.len() == 1 {
        assert(t.subrange(0, t.len() as int) =~= t);
        0
    } else {
        let front = text::joined(parts.drop_last(), sep);
        if k == parts.len() - 1 {
            let at = (front.len() + sep.len()) as int;
            assert(t.subrange(at, at + parts[k].len()) =~= parts[k]);
            at
        } else {
            let at = lemma_joined_holds(parts.drop_last(), sep, k);
            assert(t.subrange(at, at + parts[k].len()) =~= front.subrange(at, at + parts[k].len()));
            at
        }
    }
}

/// What nobody else calls is deleted: the text before the declaration and the
/// text behind it are kept, but for the line breaks that follow it at once.
pub proof fn law_uncalled_bucket_is_cut_out(
    s: Seq<char>,
    p: Program,
    input: JsonView,
    target: Seq<char>,
    bucket: Bucket,
    span: Span,
)
    requires
        program::bucket_at(p.buckets@, target) == Some(bucket),
        bucket.body == Some(span),
        surgery::span_fits(s, span),
        program::node_at(p.graph@, target) matches Some(n) ==> forall|i: int|
            0 <= i < n.called_by@.len() ==> (#[trigger] n.called_by@[i])@ == target
                || program::bucket_at(p.buckets@, n.called_by@[i]@) is None,
    ensures
        ({
            let start = surgery::decl_start(s, surgery::first_char(s, span));
            let end = surgery::decl_end(s, surgery::end_char(s, span));
            exists|k: int|
                {
                    &&& end <= k <= s.len()
                    &&& delete_step(s, p, input, Some(target)) == StepView::Check(
                        s.subrange(0, start) + #[trigger] s.subrange(k, s.len() as int),
                        KindView::Deleted(json::get_text_or_empty(input, "address"@)),
                    )
                    &&& forall|i: int| end <= i < k ==> s[i] == '\n'
                    &&& k < s.len() ==> s[k] != '\n'
                }
        }),
{
    if let Some(n) = program::node_at(p.graph@, target) {
        let all = text::texts(n.called_by@);
        assert forall|j: int| 0 <= j < others(all, target).len() implies program::bucket_at(
            p.buckets@,
            #[trigger] others(all, target)[j],
        ) is None by {
            let i = lemma_other_from(all, target, j);
            assert(n.called_by@[i]@ == all[i]);
        }
        lemma_no_names(p.buckets@, others(all, target));
    }
    surgery::lemma_span_order(s, span);
    surgery::law_deleting_keeps_the_rest(
        s,
        surgery::first_char(s, span),
        surgery::end_char(s, span),
    );
}

proof fn lemma_no_names(buckets: Seq<Bucket>, addresses: Seq<Seq<char>>)
    requires
        forall|j: int|
            0 <= j < addresses.len() ==> program::bucket_at(buckets, #[trigger] addresses[j])
                is None,
    ensures
        names(buckets, addresses).len() == 0,
    decreases addresses.len(),
{
    if addresses.len() > 0 {
        let t = addresses.drop_last();
        assert forall|j: int| 0 <= j < t.len() implies program::bucket_at(
            buckets,
            #[trigger] t[j],
        ) is None by {
            assert(t[j] == addresses[j]);
        }
        lemma_no_names(buckets, t);
        assert(program::bucket_at(buckets, addresses[addresses.len() - 1]) is None);
    }
}

/// An added bucket stands at the end of the source, behind an empty line, with
/// the label, parameters, return type, description and body that the call gives:
/// the type that is given, and `Num` where none is, stands between the arrow
/// behind the parameters and the quote before the description.
pub proof fn law_added_bucket_is_what_was_asked(s: Seq<char>, input: JsonView)
    requires
        text::trim(json::get_text_or_empty(input, "label"@)).len() > 0,
        text::trim(json::get_text_or_empty(input, "description"@)).len() > 0,
    ensures
        ({
            let label = text::trim(json::get_text_or_empty(input, "label"@));
            let ret = match json::get(input, "returns"@) {
                Some(JsonView::Text(t)) => t,
                _ => "Num"@,
            };
            let lines = text::lines(text::trim(json::get_text_or_empty(input, "body"@)));
            add_step(s, input, None) == StepView::Check(
                text::trim_end(s) + "\n"@ + ("\n"@ + label + "("@ + text::joined(
                    given_params(json::get_items(input, "params"@)),
                    ", "@,
                ) + ") -> "@ + ret + " \""@ + text::unquoted(
                    json::get_text_or_empty(input, "description"@),
                ) + "\" {\n"@ + text::joined(
                    Seq::new(lines.len(), |i: int| "  "@ + text::trim_end(lines[i])),
                    "\n"@,
                ) + "\n}\n"@),
                KindView::Added(label),
            )
        }),
{
    let lines = text::lines(text::trim(json::get_text_or_empty(input, "body"@)));
    assert(indented(lines) =~= Seq::new(lines.len(), |i: int| "  "@ + text::trim_end(lines[i])));
}

/// Two additions that differ in the return type alone give sources that differ
/// there alone: the same text before it, which ends in the arrow, and the same
/// text behind it, which opens the description.
pub proof fn law_return_type_lands_behind_the_arrow(
    s: Seq<char>,
    one: JsonView,
    two: JsonView,
    first: Seq<char>,
    second: Seq<char>,
)
    requires
        add_step(s, one, None) is Check,
        json::get(one, "label"@) == json::get(two, "label"@),
        json::get(one, "params"@) == json::get(two, "params"@),
        json::get(one, "description"@) == json::get(two, "description"@),
        json::get(one, "body"@) == json::get(two, "body"@),
        json::get(one, "returns"@) == Some(JsonView::Text(first)),
        json::get(two, "returns"@) == Some(JsonView::Text(second)),
    ensures
        exists|before: Seq<char>, after: Seq<char>|
            {
                &&& #[trigger] text::ends_with(before, ") -> "@)
                &&& #[trigger] text::starts_with(after, " \""@)
                &&& add_step(s, one, None) matches StepView::Check(c, _) && c == before + first
                    + after
                &&& add_step(s, two, None) matches StepView::Check(c, _) && c == before + second
                    + after
            },
{
    let lead = text::trim_end(s) + "\n"@;
    let open = "\n"@ + text::trim(arg(one, "label"@)) + "("@ + added_params(one);
    let desc = text::unquoted(arg(one, "description"@));
    let body = text::joined(indented(text::lines(text::trim(arg(one, "body"@)))), "\n"@);
    let before = lead + open + ") -> "@;
    let after = " \""@ + (desc + "\" {\n"@ + body + "\n}\n"@);
    lemma_around(lead, open, ") -> "@, first, " \""@, desc, "\" {\n"@, body, "\n}\n"@);
    lemma_around(lead, open, ") -> "@, second, " \""@, desc, "\" {\n"@, body, "\n}\n"@);
    assert(lead + added_decl(one) == before + first + after);
    assert(lead + added_decl(two) == before + second + after);
}

proof fn lemma_around(
    lead: Seq<char>,
    open: Seq<char>,
    arrow: Seq<char>,
    ret: Seq<char>,
    quote: Seq<char>,
    desc: Seq<char>,
    brace: Seq<char>,
    body: Seq<char>,
    close: Seq<char>,
)
    ensures
        lead + (open + arrow + ret + quote + desc + brace + body + close) == lead + open + arrow
            + ret + (quote + (desc + brace + body + close)),
        text::ends_with(lead + open + arrow, arrow),
        text::starts_with(quote + (desc + brace + body + close), quote),
{
    assert(lead + (open + arrow + ret + quote + desc + brace + body + close) =~= lead + open + arrow
        + ret + (quote + (desc + brace + body + close)));
    let before = lead + open + arrow;
    assert(before.subrange(before.len() - arrow.len(), before.len() as int) =~= arrow);
    let after = quote + (desc + brace + body + close);
    assert(after.subrange(0, quote.len() as int) =~= quote);
}

/// An addition is refused without a label, without a description, and where a
/// bucket of that name is there already; in no other case.
pub proof fn law_additions_that_are_refused(
    s: Seq<char>,
    input: JsonView,
    resolved: Option<Seq<char>>,
)
    ensures
        add_step(s, input, resolved) is Check <==> {
            &&& text::trim(json::get_text_or_empty(input, "label"@)).len() > 0
            &&& text::trim(json::get_text_or_empty(input, "description"@)).len() > 0
            &&& resolved is None
        },
        add_step(s, input, resolved) is Check || (add_step(s, input, resolved) matches StepView::Done(
            _,
            error,
        ) && error),
{
}

/// Reading shows the body of the bucket as it stands in the source, without the
/// white space at its end, so that a snippet of it can be given back.
pub proof fn law_reading_shows_the_body(
    before: Seq<char>,
    body: Seq<char>,
    after: Seq<char>,
    p: Program,
    input: JsonView,
    target: Seq<char>,
    bucket: Bucket,
    span: Span,
)
    requires
        program::bucket_at(p.buckets@, target) == Some(bucket),
        bucket.body == Some(span),
        span.start == text::size(before),
        span.end == text::size(before) + text::size(body),
    ensures
        read_step(before + body + after, p, input, Some(target)) == StepView::ReadBucket(
            json::get_text_or_empty(input, "address"@),
            Some(text::trim_end(body)),
        ),
{
    surgery::law_span_covers_its_body(before, body, after, span);
}

/// A body edit carries over what the call gives: the bucket as it was named, its
/// address and the place of its body, the new body, and the new description if
/// there is one. A bucket that is not known is refused.
pub proof fn law_edit_carries_what_was_given(p: Program, input: JsonView, target: Seq<char>)
    ensures
        edit_step(p, input, Some(target)) matches StepView::Splice(e) && {
            &&& e.address == json::get_text_or_empty(input, "address"@)
            &&& e.body == json::get_text_or_empty(input, "body"@)
            &&& e.target == target
            &&& e.span == match program::bucket_at(p.buckets@, target) {
                Some(b) => b.body,
                None => None,
            }
            &&& e.description == match json::get(input, "description"@) {
                Some(JsonView::Text(d)) => Some(d),
                _ => None,
            }
        },
        edit_step(p, input, None) matches StepView::Done(_, error) && error,
{
}

/// A body edit without a description is the spliced source as it is; with one,
/// only what stands between the last two quotes before the body is new.
pub proof fn law_edit_describes_before_the_body(
    e: EditView,
    before: Seq<char>,
    old_desc: Seq<char>,
    brace: Seq<char>,
    rest: Seq<char>,
    desc: Seq<char>,
    span: Span,
)
    requires
        !old_desc.contains('"'),
        !brace.contains('"'),
        span.start == text::size(before + seq!['"'] + old_desc + seq!['"'] + brace) + 1,
        e.span == Some(span),
    ensures
        ({
            let spliced = before + seq!['"'] + old_desc + seq!['"'] + brace + rest;
            &&& e.can_describe(spliced)
            &&& e.description is None ==> e.candidate(spliced) == spliced
            &&& e.description == Some(desc) ==> e.candidate(spliced) == before + seq!['"']
                + text::unquoted(desc) + seq!['"'] + brace + rest
        }),
{
    surgery::law_new_description_lands_before_the_body(before, old_desc, brace, rest, span, desc);
}

/// The list of buckets has a line for each bucket of the user, in order, with
/// its address, label, contract and description, and none for any other.
pub proof fn law_list_has_a_line_for_each_bucket(a: Seq<Bucket>, b: Seq<Bucket>)
    ensures
        bucket_lines(Seq::empty()) == Seq::<char>::empty(),
        a.len() == 1 && !a[0].user ==> bucket_lines(a) == Seq::<char>::empty(),
        a.len() == 1 && a[0].user ==> ({
            let label = match a[0].label {
                Some(l) => l@,
                None => Seq::empty(),
            };
            bucket_lines(a) == a[0].address@ + "  "@ + text::padded(
                label + program::contract(a[0]),
                36,
            ) + "  \""@ + a[0].desc@ + "\"\n"@
        }),
        bucket_lines(a + b) == bucket_lines(a) + bucket_lines(b),
    decreases b.len(),
{
    if a.len() == 1 {
        assert(a.drop_last() =~= Seq::<Bucket>::empty());
        assert(bucket_lines(a.drop_last()) =~= Seq::<char>::empty());
        assert(Seq::<char>::empty() + bucket_line(a[0]) =~= bucket_line(a[0]));
    }
    if b.len() == 0 {
        assert(a + b =~= a);
        assert(bucket_lines(a) + bucket_lines(b) =~= bucket_lines(a));
    } else {
        law_list_has_a_line_for_each_bucket(a, b.drop_last());
        assert((a + b).drop_last() =~= a + b.drop_last());
        assert((a + b).last() == b.last());
        assert(bucket_lines(a + b) =~= bucket_lines(a) + bucket_lines(b));
    }
}

/// The names of a list of addresses: of each one that is a bucket its label, or
/// the address where it has none, in order; what is no bucket is passed over.
pub proof fn law_names_follow_the_addresses(
    buckets: Seq<Bucket>,
    a: Seq<Seq<char>>,
    b: Seq<Seq<char>>,
)
    ensures
        names(buckets, Seq::empty()) == Seq::<Seq<char>>::empty(),
        a.len() == 1 ==> names(buckets, a) == match program::bucket_at(buckets, a[0]) {
            Some(bucket) => match bucket.label {
                Some(l) => seq![l@],
                None => seq![a[0]],
            },
            None => Seq::empty(),
        },
        names(buckets, a + b) == names(buckets, a) + names(buckets, b),
    decreases b.len(),
{
    if a.len() == 1 {
        let none = Seq::<Seq<char>>::empty();
        assert(a.drop_last() =~= none);
        assert(names(buckets, a.drop_last()) =~= none);
        if let Some(bucket) = program::bucket_at(buckets, a[0]) {
            let l = program::label_or(bucket, a[0]);
            assert(none.push(l) =~= seq![l]);
        }
    }
    if b.len() == 0 {
        assert(a + b =~= a);
        assert(names(buckets, a) + names(buckets, b) =~= names(buckets, a));
    } else {
        law_names_follow_the_addresses(buckets, a, b.drop_last());
        assert((a + b).drop_last() =~= a + b.drop_last());
        assert((a + b).last() == b.last());
        assert(names(buckets, a + b) =~= names(buckets, a) + names(buckets, b));
    }
}

/// The graph tells of each bucket of the user what it calls and what calls it,
/// in the order of the nodes; of one bucket alone where one was asked for.
pub proof fn law_graph_tells_calls_and_callers(
    p: Program,
    a: Seq<Node>,
    b: Seq<Node>,
    limited: bool,
    only: Option<Seq<char>>,
)
    ensures
        graph_text(p, Seq::empty(), limited, only) == Seq::<char>::empty(),
        a.len() == 1 ==> ({
            let n = a[0];
            let shown = !limited || only == Some(n.address@);
            let calls = names(p.buckets@, text::texts(n.calls@));
            let called_by = names(p.buckets@, text::texts(n.called_by@));
            graph_text(p, a, limited, only) == match program::bucket_at(p.buckets@, n.address@) {
                Some(bucket) => if shown && bucket.user {
                    (match bucket.label {
                        Some(l) => l@,
                        None => n.address@,
                    }) + " ("@ + n.address@ + ")\n  calls    -> "@ + (if calls.len() == 0 {
                        "-"@
                    } else {
                        text::joined(calls, ", "@)
                    }) + "\n  called by <- "@ + (if called_by.len() == 0 {
                        "-"@
                    } else {
                        text::joined(called_by, ", "@)
                    }) + "\n"@
                } else {
                    Seq::empty()
                },
                None => Seq::empty(),
            }
        }),
        graph_text(p, a + b, limited, only) == graph_text(p, a, limited, only) + graph_text(
            p,
            b,
            limited,
            only,
        ),
    decreases b.len(),
{
    let none = Seq::<char>::empty();
    if a.len() == 1 {
        assert(a.drop_last() =~= Seq::<Node>::empty());
        assert(graph_text(p, a.drop_last(), limited, only) =~= none);
        if let Some(t) = node_text(p, a[0], limited, only) {
            assert(none + t =~= t);
        }
    }
    if b.len() == 0 {
        assert(a + b =~= a);
        assert(graph_text(p, a, limited, only) + graph_text(p, b, limited, only) =~= graph_text(
            p,
            a,
            limited,
            only,
        ));
    } else {
        law_graph_tells_calls_and_callers(p, a, b.drop_last(), limited, only);
        assert((a + b).drop_last() =~= a + b.drop_last());
        assert((a + b).last() == b.last());
        assert(graph_text(p, a + b, limited, only) =~= graph_text(p, a, limited, only)
            + graph_text(p, b, limited, only));
    }
}

/// The graph is limited to one bucket exactly where the call names one, and the
/// reply is never empty.
pub proof fn law_graph_is_never_empty(p: Program, input: JsonView, resolved: Option<Seq<char>>)
    ensures
        ({
            let limited = json::get(input, "address"@) matches Some(JsonView::Text(_));
            let t = graph_text(p, p.graph@, limited, resolved);
            graph_step(p, input, resolved) matches StepView::Done(shown, error) && !error
                && shown.len() > 0 && (t.len() > 0 ==> shown == t)
        }),
{
    reveal_strlit("no matching buckets\n");
}

/// The words of a command are the texts of the list that was given, in order;
/// what is no text is passed over.
pub proof fn law_command_words_are_the_texts(a: Seq<JsonView>, b: Seq<JsonView>)
    ensures
        texts_among(Seq::empty()) == Seq::<Seq<char>>::empty(),
        a.len() == 1 ==> texts_among(a) == match a[0] {
            JsonView::Text(t) => seq![t],
            _ => Seq::empty(),
        },
        texts_among(a + b) == texts_among(a) + texts_among(b),
    decreases b.len(),
{
    if a.len() == 1 {
        let none = Seq::<Seq<char>>::empty();
        assert(a.drop_last() =~= Seq::<JsonView>::empty());
        assert(texts_among(a.drop_last()) =~= none);
        if let JsonView::Text(t) = a[0] {
            assert(none.push(t) =~= seq![t]);
        }
    }
    if b.len() == 0 {
        assert(a + b =~= a);
        assert(texts_among(a) + texts_among(b) =~= texts_among(a));
    } else {
        law_command_words_are_the_texts(a, b.drop_last());
        assert((a + b).drop_last() =~= a + b.drop_last());
        assert((a + b).last() == b.last());
        assert(texts_among(a + b) =~= texts_among(a) + texts_among(b));
    }
}

/// A list of texts is run as it is, and a list without a text is refused.
pub proof fn law_commands_run_as_given(input: JsonView, argv: Seq<Seq<char>>)
    requires
        json::get(input, "argv"@) == Some(json::text_array(argv)),
    ensures
        argv.len() > 0 ==> run_step(input) == StepView::Run(argv),
        argv.len() == 0 ==> (run_step(input) matches StepView::Done(_, error) && error),
{
    lemma_all_texts(argv);
}

proof fn lemma_all_texts(argv: Seq<Seq<char>>)
    ensures
        texts_among(json::text_array(argv)->Array_0) == argv,
    decreases argv.len(),
{
    let items = json::text_array(argv)->Array_0;
    if argv.len() == 0 {
        assert(texts_among(items) =~= argv);
    } else {
        lemma_all_texts(argv.drop_last());
        assert(items.drop_last() =~= json::text_array(argv.drop_last())->Array_0);
        assert(argv.drop_last().push(argv.last()) =~= argv);
    }
}

/// A search replies with the shortlist of what it found, at most six, and says
/// so where it found nothing; neither is an error.
pub proof fn law_search_replies(p: Program, input: JsonView)
    ensures
        ({
            let query = json::get_text_or_empty(input, "query"@);
            let found = index::found(p.buckets@, query, 6);
            find_step(p, input) matches StepView::Done(t, error) && {
                &&& !error
                &&& found.len() > 0 ==> t == index::shortlist(found)
                &&& found.len() == 0 ==> text::contains_text(t, query)
            }
        }),
{
    let query = json::get_text_or_empty(input, "query"@);
    text::law_parts_of_a_text(
        "nothing matched \""@,
        "\". Try list_buckets to see everything."@,
        query,
    );
}

/// A patch is refused, and nothing is compiled, where the snippet is empty,
/// stands nowhere in the body or stands there more than once, and where there is
/// no body to patch. A snippet that stands nowhere is answered with the body.
pub proof fn law_patches_that_are_refused(
    s: Seq<char>,
    p: Program,
    input: JsonView,
    target: Seq<char>,
)
    ensures
        ({
            let find = json::get_text_or_empty(input, "find"@);
            let step = patch_step(s, p, input, Some(target));
            let refused = step matches StepView::Done(_, error) && error;
            &&& step is Check || refused
            &&& find.len() == 0 ==> refused
            &&& patch_step(s, p, input, None) matches StepView::Done(_, error) && error
            &&& match program::bucket_at(p.buckets@, target) {
                None => refused,
                Some(bucket) => match bucket.body {
                    None => refused,
                    Some(span) => {
                        let body = surgery::body_text(s, span);
                        &&& find.len() > 0 && text::match_count(body, find, 0) != 1 ==> (
                        step matches StepView::Done(t, error) && error && text::contains_text(
                            t,
                            text::trim(body),
                        ))
                        &&& find.len() > 0 && text::match_count(body, find, 0) == 1
                            && !(json::get(input, "tests"@) is Some) ==> step is Check
                    },
                },
            }
        }),
{
    let address = json::get_text_or_empty(input, "address"@);
    let find = json::get_text_or_empty(input, "find"@);
    if let Some(bucket) = program::bucket_at(p.buckets@, target) {
        if let Some(span) = bucket.body {
            let body = surgery::body_text(s, span);
            let t = text::trim(body);
            text::law_parts_of_a_text(
                "`find` does not appear in the body of "@ + address
                    + ". The body, exactly as written:\n---\n"@,
                "\n---"@,
                t,
            );
            let many = "`find` appears "@ + text::decimal(text::match_count(body, find, 0))
                + " times in "@ + address
                + "; include enough surrounding text to make it unique. The body is:\n"@;
            text::law_parts_of_a_text(many, Seq::empty(), t);
            assert(many + t + Seq::<char>::empty() =~= many + t);
        }
    }
}

proof fn lemma_tool_names()
    ensures
        "list_buckets"@.len() == 12 && "list_buckets"@[0] == 'l',
        "find_buckets"@.len() == 12 && "find_buckets"@[0] == 'f',
        "read_bucket"@.len() == 11 && "read_bucket"@[0] == 'r',
        "run_tests"@.len() == 9 && "run_tests"@[0] == 'r',
        "edit_bucket"@.len() == 11 && "edit_bucket"@[0] == 'e',
        "patch_bucket"@.len() == 12 && "patch_bucket"@[0] == 'p',
        "delete_bucket"@.len() == 13 && "delete_bucket"@[0] == 'd',
        "set_signature"@.len() == 13 && "set_signature"@[0] == 's',
        "set_tests"@.len() == 9 && "set_tests"@[0] == 's',
        "add_bucket"@.len() == 10 && "add_bucket"@[0] == 'a',
        "bucket_graph"@.len() == 12 && "bucket_graph"@[0] == 'b',
        "read_file"@.len() == 9 && "read_file"@[0] == 'r' && "read_file"@[1] == 'e',
        "run_tests"@[1] == 'u',
        "write_file"@.len() == 10 && "write_file"@[0] == 'w',
        "run_command"@.len() == 11 && "run_command"@[0] == 'r' && "run_command"@[1] == 'u',
        "read_bucket"@[1] == 'e',
{
    reveal_strlit("list_buckets");
    reveal_strlit("find_buckets");
    reveal_strlit("read_bucket");
    reveal_strlit("run_tests");
    reveal_strlit("edit_bucket");
    reveal_strlit("patch_bucket");
    reveal_strlit("delete_bucket");
    reveal_strlit("set_signature");
    reveal_strlit("set_tests");
    reveal_strlit("add_bucket");
    reveal_strlit("bucket_graph");
    reveal_strlit("read_file");
    reveal_strlit("write_file");
    reveal_strlit("run_command");
}

/// Each tool takes the step of its own name, with the input of the call.
pub proof fn law_each_tool_takes_its_step(
    s: Seq<char>,
    p: Program,
    call: ToolCallView,
    resolved: Option<Seq<char>>,
)
    ensures
        ({
            let step = next_step(s, Ok(p), call, resolved);
            let input = call.input;
            &&& call.name == "list_buckets"@ ==> step == StepView::Done(
                "address      label / contract                     description\n"@ + bucket_lines(
                    p.buckets@,
                ),
                false,
            )
            &&& call.name == "find_buckets"@ ==> step == find_step(p, input)
            &&& call.name == "read_bucket"@ ==> step == read_step(s, p, input, resolved)
            &&& call.name == "run_tests"@ ==> step == StepView::RunTests
            &&& call.name == "edit_bucket"@ ==> step == edit_step(p, input, resolved)
            &&& call.name == "patch_bucket"@ ==> step == patch_step(s, p, input, resolved)
            &&& call.name == "delete_bucket"@ ==> step == delete_step(s, p, input, resolved)
            &&& call.name == "set_signature"@ ==> step == signature_step(s, p, input, resolved)
            &&& call.name == "set_tests"@ ==> step == tests_step(s, p, input, resolved)
            &&& call.name == "add_bucket"@ ==> step == add_step(s, input, resolved)
            &&& call.name == "bucket_graph"@ ==> step == graph_step(p, input, resolved)
            &&& call.name == "run_command"@ ==> step == run_step(input)
            &&& call.name == "read_file"@ ==> step == StepView::ReadFile(
                json::get_text_or_empty(input, "path"@),
            )
            &&& call.name == "write_file"@ ==> step == StepView::WriteFile(
                json::get_text_or_empty(input, "path"@),
                json::get_text_or_empty(input, "contents"@),
            )
        }),
{
    lemma_tool_names();
}

/// Which name a call has to resolve: the new label for an addition, the address
/// for every tool that works on one bucket, and none for the others.
pub proof fn law_name_that_is_resolved(name: Seq<char>, input: JsonView)
    ensures
        ({
            let label = text::trim(json::get_text_or_empty(input, "label"@));
            let address = text::trim(json::get_text_or_empty(input, "address"@));
            let n = name_to_resolve(name, input);
            &&& name == "add_bucket"@ ==> n == Some(label)
            &&& name == "read_bucket"@ || name == "edit_bucket"@ || name == "patch_bucket"@ || name
                == "delete_bucket"@ || name == "set_signature"@ || name == "set_tests"@ ==> n
                == Some(address)
            &&& name == "bucket_graph"@ ==> n == match json::get(input, "address"@) {
                Some(JsonView::Text(a)) => Some(text::trim(a)),
                _ => None,
            }
            &&& name == "list_buckets"@ || name == "find_buckets"@ || name == "run_tests"@ || name
                == "read_file"@ || name == "write_file"@ || name == "run_command"@ ==> n is None
        }),
{
    lemma_tool_names();
}

/// A change to a bucket that is not known, or that has no body of its own, is
/// refused.
pub proof fn law_unknown_bucket_is_refused(
    s: Seq<char>,
    p: Program,
    input: JsonView,
    target: Seq<char>,
)
    ensures
        delete_step(s, p, input, None) matches StepView::Done(_, error) && error,
        signature_step(s, p, input, None) matches StepView::Done(_, error) && error,
        tests_step(s, p, input, None) matches StepView::Done(_, error) && error,
        !(program::bucket_at(p.buckets@, target) matches Some(b) && b.body is Some) ==> {
            &&& delete_step(s, p, input, Some(target)) matches StepView::Done(_, error) && error
            &&& signature_step(s, p, input, Some(target)) matches StepView::Done(_, error) && error
            &&& tests_step(s, p, input, Some(target)) matches StepView::Done(_, error) && error
        },
        surgery::test_lines(json::get_items(input, "tests"@)) matches Err(e) ==> tests_step(
            s,
            p,
            input,
            Some(target),
        ) == StepView::Done(e, true),
{
}

/// What is said of a change that is accepted: the bucket as the model named it,
/// the new address of an addition, and how many tests passed.
pub proof fn law_accepted_change_is_told(
    kind: KindView,
    before: Seq<(Seq<char>, Seq<char>)>,
    compiled: Result<Recompiled, String>,
)
    requires
        settlement(kind, before, compiled) is Ok,
    ensures
        ({
            let told = settlement(kind, before, compiled)->Ok_0;
            let passed = text::decimal(compiled->Ok_0.tests@.len());
            match kind {
                KindView::Patched(address, _) => told == "patched "@ + address + ". "@ + passed
                    + " test(s) pass."@,
                KindView::Deleted(address) => told == "deleted "@ + address + "."@,
                KindView::Resigned(_, note) => told == note,
                KindView::Retested(address, _, count) => told == address + " now has "@
                    + text::decimal(count) + " test(s); all "@ + passed
                    + " test(s) in the program pass."@,
                KindView::Added(label) => {
                    let new = gate::appeared(before, gate::pairs(compiled->Ok_0.hashes@));
                    new.len() == 1 && told == "added "@ + label + " as "@ + new[0].0 + ". All "@
                        + passed + " test(s) still pass."@
                },
            }
        }),
{
}

/// A change that passes every gate is accepted: the program compiles, its tests
/// pass, and nothing moved but what was meant to move.
pub proof fn law_clean_change_is_accepted(
    kind: KindView,
    before: Seq<(Seq<char>, Seq<char>)>,
    compiled: Result<Recompiled, String>,
)
    requires
        compiled is Ok,
        forall|i: int|
            0 <= i < compiled->Ok_0.tests@.len() ==> (
            #[trigger] compiled->Ok_0.tests@[i]).passes(),
        ({
            let after = gate::pairs(compiled->Ok_0.hashes@);
            &&& gate::appeared(before, after).len() == if kind is Added {
                1nat
            } else {
                0nat
            }
            &&& gate::appeared(after, before).len() == if kind is Deleted {
                1nat
            } else {
                0nat
            }
            &&& forall|i: int|
                0 <= i < before.len() && target_of(kind) != Some((#[trigger] before[i]).0) ==> {
                    let now = gate::hash_of(after, before[i].0);
                    now == Some(before[i].1) || (kind is Deleted && now is None)
                }
        }),
    ensures
        settlement(kind, before, compiled) is Ok,
        !shown(settlement(kind, before, compiled)).1,
{
    let c = compiled->Ok_0;
    let after = gate::pairs(c.hashes@);
    gate::law_no_failure_where_all_pass(c.tests@);
    match kind {
        KindView::Added(_) => {
            gate::law_undisturbed_pairs_are_not_listed(before, after, Seq::empty());
        },
        KindView::Deleted(_) => {
            gate::law_undisturbed_pairs_are_not_listed(before, after, Seq::empty());
        },
        KindView::Patched(_, t) => {
            lemma_meant(before, after, t);
        },
        KindView::Resigned(t, _) => {
            lemma_meant(before, after, t);
        },
        KindView::Retested(_, t, _) => {
            lemma_meant(before, after, t);
        },
    }
}

proof fn lemma_meant(
    before: Seq<(Seq<char>, Seq<char>)>,
    after: Seq<(Seq<char>, Seq<char>)>,
    t: Seq<char>,
)
    requires
        forall|i: int|
            0 <= i < before.len() && Some(t) != Some((#[trigger] before[i]).0) ==> gate::hash_of(
                after,
                before[i].0,
            ) == Some(before[i].1),
    ensures
        gate::collateral(before, after, seq![t]).len() == 0,
{
    let meant = seq![t];
    assert forall|i: int| 0 <= i < before.len() implies {
        ||| gate::hash_of(after, (#[trigger] before[i]).0) == Some(before[i].1)
        ||| gate::hash_of(after, before[i].0) is None
        ||| meant.contains(before[i].0)
    } by {
        if before[i].0 == t {
            assert(meant[0] == t);
        }
    }
    gate::law_undisturbed_pairs_are_not_listed(before, after, meant);
}

/// A verdict is shown as it is, and only a refusal is an error.
pub proof fn law_only_refusals_are_errors(t: Seq<char>)
    ensures
        shown(Ok(t)) == (t, false),
        shown(Err(t)) == (t, true),
{
}

/// A call can be carried out whenever it cuts into nothing: another tool than
/// those that rewrite a declaration, no bucket, or a bucket without a body. A
/// call that does cut needs a span that fits and, for a new description on a
/// patch, a place before the brace.
pub proof fn law_readiness(
    s: Seq<char>,
    p: Program,
    call: ToolCallView,
    target: Seq<char>,
)
    ensures
        call.name != "patch_bucket"@ && call.name != "delete_bucket"@ && call.name
            != "set_signature"@ && call.name != "set_tests"@ ==> ready(s, p, call, Some(target)),
        ready(s, p, call, None),
        !(program::bucket_at(p.buckets@, target) matches Some(b) && b.body is Some) ==> ready(
            s,
            p,
            call,
            Some(target),
        ),
        program::bucket_at(p.buckets@, target) matches Some(b) ==> (b.body matches Some(span) ==> {
            &&& surgery::span_fits(s, span) && surgery::brace_fits(s, span) ==> ready(
                s,
                p,
                call,
                Some(target),
            )
            &&& surgery::span_fits(s, span) && !(json::get(call.input, "description"@) matches Some(
                JsonView::Text(_),
            )) ==> ready(s, p, call, Some(target))
            &&& !surgery::span_fits(s, span) && (call.name == "patch_bucket"@ || call.name
                == "delete_bucket"@ || call.name == "set_signature"@ || call.name
                == "set_tests"@) ==> !ready(s, p, call, Some(target))
            &&& call.name == "patch_bucket"@ && (json::get(call.input, "description"@) matches Some(
                JsonView::Text(_),
            )) && !surgery::brace_fits(s, span) ==> !ready(s, p, call, Some(target))
        }),
{
}

/// A refusal names the bucket as the call named it.
pub proof fn law_refusals_name_the_bucket(
    s: Seq<char>,
    p: Program,
    input: JsonView,
    target: Seq<char>,
    address: Seq<char>,
)
    requires
        json::get(input, "address"@) == Some(JsonView::Text(address)),
    ensures
        edit_step(p, input, None) matches StepView::Done(t, _) && text::ends_with(t, address),
        delete_step(s, p, input, None) matches StepView::Done(t, _) && text::ends_with(t, address),
        signature_step(s, p, input, None) matches StepView::Done(t, _) && text::ends_with(
            t,
            address,
        ),
        tests_step(s, p, input, None) matches StepView::Done(t, _) && text::ends_with(t, address),
        json::get_text_or_empty(input, "find"@).len() > 0 ==> (patch_step(s, p, input, None)
            matches StepView::Done(t, _) && text::ends_with(t, address)),
        signature_step(s, p, input, Some(target)) matches StepView::Done(t, _)
            ==> text::contains_text(t, address),
        delete_step(s, p, input, Some(target)) matches StepView::Done(t, _)
            ==> text::contains_text(t, address),
        json::get(input, "tests"@) is None && json::get_text_or_empty(input, "find"@).len() > 0 ==> (
        patch_step(s, p, input, Some(target)) matches StepView::Done(t, _) ==> text::contains_text(
            t,
            address,
        )),
{
    let none = Seq::<char>::empty();
    text::law_parts_of_a_text("unknown bucket "@, none, address);
    assert("unknown bucket "@ + address + none =~= "unknown bucket "@ + address);
    text::law_parts_of_a_text(none, " has no editable declaration here"@, address);
    assert(none + address =~= address);
    text::law_parts_of_a_text("cannot locate the declaration of "@, none, address);
    assert("cannot locate the declaration of "@ + address + none
        =~= "cannot locate the declaration of "@ + address);
    text::law_parts_of_a_text(
        none,
        " has no editable body here (it may be a core or an import)"@,
        address,
    );
    let w = " is still called by "@;
    let list = text::joined(callers(p, target), ", "@);
    let x = ". Change those first."@;
    text::law_parts_of_a_text(none, w + list + x, address);
    assert(address + w + list + x =~= address + (w + list + x));
    if let Some(span) = span_of(p, Some(target)) {
        let body = surgery::body_text(s, span);
        let find = json::get_text_or_empty(input, "find"@);
        let a = "`find` does not appear in the body of "@;
        let b = ". The body, exactly as written:\n---\n"@;
        let c = "\n---"@;
        let t = text::trim(body);
        text::law_parts_of_a_text(a, b + t + c, address);
        assert(a + address + b + t + c =~= a + address + (b + t + c));
        let d = "`find` appears "@ + text::decimal(text::match_count(body, find, 0))
            + " times in "@;
        let e = "; include enough surrounding text to make it unique. The body is:\n"@;
        text::law_parts_of_a_text(d, e + t, address);
        assert(d + address + e + t =~= d + address + (e + t));
    }
}

/// A body edit with nothing to describe, or nowhere to describe it, is the
/// spliced source as it is.
pub proof fn law_edit_without_description_is_the_splice(e: EditView, spliced: Seq<char>)
    requires
        e.description is None || e.span is None,
    ensures
        e.can_describe(spliced),
        e.candidate(spliced) == spliced,
{
}

/// What contracts say of an output, an edit, a change and a step is what they
/// hold, field by field.
pub proof fn law_steps_are_read_as_they_are(o: Output, e: Edit, a: String, b: String, n: usize)
    ensures
        o@ == (o.text@, o.is_error),
        e@.address == e.address@ && e@.body == e.body@ && e@.target == e.target@ && e@.span
            == e.span,
        e@.description == text::opt_text(e.description),
        Kind::Patched(a, b)@ == KindView::Patched(a@, b@),
        Kind::Deleted(a)@ == KindView::Deleted(a@),
        Kind::Resigned(a, b)@ == KindView::Resigned(a@, b@),
        Kind::Retested(a, b, n)@ == KindView::Retested(a@, b@, n as nat),
        Kind::Added(a)@ == KindView::Added(a@),
        Step::Done(o)@ == StepView::Done(o.text@, o.is_error),
        Step::Splice(e)@ == StepView::Splice(e@),
        Step::Check(a, Kind::Added(b))@ == StepView::Check(a@, KindView::Added(b@)),
        Step::ReadBucket(a, Some(b))@ == StepView::ReadBucket(a@, Some(b@)),
        Step::ReadBucket(a, None)@ == StepView::ReadBucket(a@, None),
        Step::ReadFile(a)@ == StepView::ReadFile(a@),
        Step::WriteFile(a, b)@ == StepView::WriteFile(a@, b@),
        Step::RunTests@ == StepView::RunTests,
{
}

/// What a refusal says, word for word. Of a patch: that the snippet is empty,
/// that it stands nowhere or how often it stands in the body, with the body, or
/// that there is no body. Of a deletion: who still calls the bucket, or that it
/// cannot be found. Of an addition: what is missing, or that the name is taken.
pub proof fn law_refusals_say_why(
    s: Seq<char>,
    p: Program,
    input: JsonView,
    target: Seq<char>,
    bucket: Bucket,
    span: Span,
    list: Seq<Seq<char>>,
)
    ensures
        ({
            let address = json::get_text_or_empty(input, "address"@);
            let find = json::get_text_or_empty(input, "find"@);
            let label = text::trim(json::get_text_or_empty(input, "label"@));
            let described = text::trim(json::get_text_or_empty(input, "description"@)).len() > 0;
            let body = surgery::body_text(s, span);
            let known = program::bucket_at(p.buckets@, target);
            let count = text::match_count(body, find, 0);
            &&& edit_step(p, input, None) == StepView::Done("unknown bucket "@ + address, true)
            &&& find.len() == 0 ==> patch_step(s, p, input, Some(target)) == StepView::Done(
                "`find` cannot be empty"@,
                true,
            )
            &&& find.len() > 0 && known == Some(bucket) && bucket.body == Some(span) && count == 0
                ==> patch_step(s, p, input, Some(target)) == StepView::Done(
                "`find` does not appear in the body of "@ + address
                    + ". The body, exactly as written:\n---\n"@ + text::trim(body) + "\n---"@,
                true,
            )
            &&& find.len() > 0 && known == Some(bucket) && bucket.body == Some(span) && count > 1
                ==> patch_step(s, p, input, Some(target)) == StepView::Done(
                "`find` appears "@ + text::decimal(count) + " times in "@ + address
                    + "; include enough surrounding text to make it unique. The body is:\n"@
                    + text::trim(body),
                true,
            )
            &&& find.len() > 0 && (known is None || known->0.body is None) ==> patch_step(
                s,
                p,
                input,
                Some(target),
            ) == StepView::Done(
                address + " has no editable body here (it may be a core or an import)"@,
                true,
            )
            &&& known == Some(bucket) && bucket.body is None ==> signature_step(
                s,
                p,
                input,
                Some(target),
            ) == StepView::Done(address + " has no editable declaration here"@, true)
            &&& callers(p, target) == list && list.len() > 0 ==> delete_step(
                s,
                p,
                input,
                Some(target),
            ) == StepView::Done(
                address + " is still called by "@ + text::joined(list, ", "@)
                    + ". Change those first."@,
                true,
            )
            &&& callers(p, target).len() == 0 && (known is None || known->0.body is None)
                ==> delete_step(s, p, input, Some(target)) == StepView::Done(
                "cannot locate the declaration of "@ + address,
                true,
            )
            &&& label.len() == 0 ==> add_step(s, input, None) == StepView::Done(
                "label is required"@,
                true,
            )
            &&& label.len() > 0 && !described ==> add_step(s, input, None) == StepView::Done(
                "a description is required — it is how this bucket is found and how it is summarised to other buckets"@,
                true,
            )
            &&& label.len() > 0 && described ==> add_step(s, input, Some(target)) == StepView::Done(
                "a bucket named "@ + label + " already exists; use edit_bucket to change it"@,
                true,
            )
        }),
{
}

/// What is said of a search that found nothing, and of a command without words.
pub proof fn law_empty_results_say_so(p: Program, input: JsonView)
    ensures
        ({
            let query = json::get_text_or_empty(input, "query"@);
            index::found(p.buckets@, query, 6).len() == 0 ==> find_step(p, input)
                == StepView::Done(
                "nothing matched \""@ + query + "\". Try list_buckets to see everything."@,
                false,
            )
        }),
        graph_text(
            p,
            p.graph@,
            json::get_text(input, "address"@) is Some,
            None,
        ).len() == 0 ==> graph_step(p, input, None) == StepView::Done(
            "no matching buckets\n"@,
            false,
        ),
        json::get(input, "argv"@) is None ==> run_step(input) == StepView::Done(
            "argv must be a non-empty array"@,
            true,
        ),
{
}

} // verus!
