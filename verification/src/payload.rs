//! The JSON that is answered, and the JSON that is asked.
//!
//! Numbers that are no whole numbers (prices, ratios, scores) are handed in as
//! JSON by the caller.

use crate::agent;
use crate::agent::{AgentRun, BaselineRun, ToolRecord};
use crate::bench::Row;
use crate::budget::{Budget, Spend};
use crate::gate;
use crate::index;
use crate::index::{Match, MatchView};
use crate::json;
use crate::json::{Json, JsonView};
use crate::program;
use crate::program::{Bucket, Node, Program, TestCase, TestOutcome};
use crate::sandbox;
use crate::sandbox::ApprovalMode;
use crate::strategy::{RenderedContext, Strategy};
use crate::text;
use vstd::prelude::*;

verus! {

// -------------------------------------------------------------------- status

/// Whether the agent can be used, and with which model unless one is named.
pub open spec fn status_object(has_key: bool, model: Seq<char>) -> JsonView {
    JsonView::Object(
        seq![("has_key"@, JsonView::Bool(has_key)), ("model"@, JsonView::Text(model))],
    )
}

pub fn status(has_key: bool, model: &str) -> (r: Json)
    ensures
        r@ == status_object(has_key, model@),
{
    let r = Json::object().with("has_key", Json::Bool(has_key)).with_text("model", model);
    assert(r@->Object_0 =~= status_object(has_key, model@)->Object_0);
    r
}

// ------------------------------------------------------------------- program

/// What the caller measured of a bucket.
#[derive(Debug, Clone)]
pub struct Measures {
    pub complexity: usize,
    /// The body as the language renders it.
    pub body: String,
    pub desc_tokens: usize,
    pub body_tokens: usize,
}

/// The names of those of the buckets that the user wrote.
pub open spec fn user_names(buckets: Seq<Bucket>, addresses: Seq<Seq<char>>) -> Seq<Seq<char>>
    decreases addresses.len(),
{
    if addresses.len() == 0 {
        Seq::empty()
    } else {
        let rest = user_names(buckets, addresses.drop_last());
        match program::bucket_at(buckets, addresses.last()) {
            Some(b) => if b.user {
                rest.push(program::label_or(b, addresses.last()))
            } else {
                rest
            },
            None => rest,
        }
    }
}

fn user_names_of(p: &Program, addresses: &Vec<String>) -> (r: Vec<String>)
    ensures
        text::texts(r@) == user_names(p.buckets@, text::texts(addresses@)),
{
    let ghost all = text::texts(addresses@);
    let mut out: Vec<String> = Vec::new();
    let mut i: usize = 0;
    assert(all.take(0) =~= Seq::<Seq<char>>::empty());
    assert(text::texts(out@) =~= Seq::<Seq<char>>::empty());
    while i < addresses.len()
        invariant
            i <= addresses@.len(),
            all == text::texts(addresses@),
            text::texts(out@) == user_names(p.buckets@, all.take(i as int)),
        decreases addresses@.len() - i,
    {
        assert(all.take(i + 1).drop_last() =~= all.take(i as int));
        assert(all.take(i + 1).last() == addresses@[i as int]@);
        match p.get(&addresses[i]) {
            Some(b) => {
                if b.user {
                    let ghost before = text::texts(out@);
                    let name = text::text_or(&b.label, &addresses[i]);
                    out.push(name);
                    assert(text::texts(out@) =~= before.push(name@));
                }
            },
            None => {},
        }
        i = i + 1;
    }
    assert(all.take(addresses@.len() as int) =~= all);
    out
}

/// The addresses of the callees of a bucket.
pub open spec fn callees(node: Option<Node>) -> Seq<Seq<char>> {
    match node {
        Some(n) => text::texts(n.calls@),
        None => Seq::empty(),
    }
}

/// The addresses of the callers of a bucket.
pub open spec fn callers(node: Option<Node>) -> Seq<Seq<char>> {
    match node {
        Some(n) => text::texts(n.called_by@),
        None => Seq::empty(),
    }
}

/// The tests whose subject is the bucket of that label.
pub open spec fn tests_on(tests: Seq<TestCase>, label: Option<Seq<char>>) -> Seq<Seq<char>>
    decreases tests.len(),
{
    if tests.len() == 0 {
        Seq::empty()
    } else {
        let rest = tests_on(tests.drop_last(), label);
        if text::opt_text(tests.last().subject) == label {
            rest.push(tests.last().desc@)
        } else {
            rest
        }
    }
}

fn same_opt(a: &Option<String>, b: &Option<String>) -> (r: bool)
    ensures
        r == (text::opt_text(*a) == text::opt_text(*b)),
{
    match (a, b) {
        (Some(x), Some(y)) => text::same(x, y),
        (None, None) => true,
        _ => false,
    }
}

fn tests_of(tests: &Vec<TestCase>, label: &Option<String>) -> (r: Vec<String>)
    ensures
        text::texts(r@) == tests_on(tests@, text::opt_text(*label)),
{
    let ghost all = tests@;
    let mut out: Vec<String> = Vec::new();
    let mut i: usize = 0;
    assert(all.take(0) =~= Seq::<TestCase>::empty());
    assert(text::texts(out@) =~= Seq::<Seq<char>>::empty());
    while i < tests.len()
        invariant
            i <= all.len(),
            all == tests@,
            text::texts(out@) == tests_on(all.take(i as int), text::opt_text(*label)),
        decreases all.len() - i,
    {
        assert(all.take(i + 1).drop_last() =~= all.take(i as int));
        if same_opt(&tests[i].subject, label) {
            let ghost before = text::texts(out@);
            out.push(tests[i].desc.clone());
            assert(text::texts(out@) =~= before.push(tests@[i as int].desc@));
        }
        i = i + 1;
    }
    assert(all.take(all.len() as int) =~= all);
    out
}

/// A bucket of the program map.
pub open spec fn bucket_object(p: Program, tests: Seq<TestCase>, b: Bucket, m: Measures) -> JsonView {
    let node = program::node_at(p.graph@, b.address@);
    JsonView::Object(
        seq![
            ("address"@, JsonView::Text(b.address@)),
            ("label"@, json::text_or_null(text::opt_text(b.label))),
            ("contract"@, JsonView::Text(program::contract(b))),
            ("desc"@, JsonView::Text(b.desc@)),
            ("calls"@, json::text_array(user_names(p.buckets@, callees(node)))),
            ("called_by"@, json::text_array(user_names(p.buckets@, callers(node)))),
            ("tests"@, json::text_array(tests_on(tests, text::opt_text(b.label)))),
            ("complexity"@, JsonView::Unsigned(m.complexity as u64)),
            ("body"@, JsonView::Text(m.body@)),
            ("desc_tokens"@, JsonView::Unsigned(m.desc_tokens as u64)),
            ("body_tokens"@, JsonView::Unsigned(m.body_tokens as u64)),
        ],
    )
}

fn bucket_of(p: &Program, tests: &Vec<TestCase>, b: &Bucket, m: &Measures) -> (r: Json)
    ensures
        r@ == bucket_object(*p, tests@, *b, *m),
{
    let none: Vec<String> = Vec::new();
    assert(text::texts(none@) =~= Seq::<Seq<char>>::empty());
    let node = p.node(&b.address);
    let calls = match node {
        Some(n) => user_names_of(p, &n.calls),
        None => user_names_of(p, &none),
    };
    let called_by = match node {
        Some(n) => user_names_of(p, &n.called_by),
        None => user_names_of(p, &none),
    };
    let r = Json::object().with_text("address", &b.address).with(
        "label",
        Json::text_or_null(&b.label),
    ).with_text("contract", &program::contract_of(b)).with_text("desc", &b.desc).with(
        "calls",
        Json::texts(&calls),
    ).with("called_by", Json::texts(&called_by)).with(
        "tests",
        Json::texts(&tests_of(tests, &b.label)),
    ).with("complexity", Json::count(m.complexity)).with_text("body", &m.body).with(
        "desc_tokens",
        Json::count(m.desc_tokens),
    ).with("body_tokens", Json::count(m.body_tokens));
    assert(r@->Object_0 =~= bucket_object(*p, tests@, *b, *m)->Object_0);
    r
}

/// The user buckets among the first `n` of the program map.
pub open spec fn bucket_objects(p: Program, tests: Seq<TestCase>, m: Seq<Measures>, n: int) -> Seq<
    JsonView,
>
    decreases n,
{
    if n <= 0 {
        Seq::empty()
    } else {
        let rest = bucket_objects(p, tests, m, n - 1);
        if p.buckets@[n - 1].user {
            rest.push(bucket_object(p, tests, p.buckets@[n - 1], m[n - 1]))
        } else {
            rest
        }
    }
}

/// The program map: every user bucket, and what the map and the file cost.
pub open spec fn program_object(
    file: Seq<char>,
    source: Seq<char>,
    p: Program,
    tests: Seq<TestCase>,
    m: Seq<Measures>,
    map_tokens: usize,
    file_tokens: usize,
) -> JsonView {
    JsonView::Object(
        seq![
            ("file"@, JsonView::Text(file)),
            ("source"@, JsonView::Text(source)),
            ("buckets"@, JsonView::Array(bucket_objects(p, tests, m, p.buckets@.len() as int))),
            ("tests"@, JsonView::Unsigned(tests.len() as u64)),
            ("map_tokens"@, JsonView::Unsigned(map_tokens as u64)),
            ("file_tokens"@, JsonView::Unsigned(file_tokens as u64)),
        ],
    )
}

/// The program map. `measures` holds what was measured of every bucket.
pub fn program_map(
    file: &str,
    source: &str,
    p: &Program,
    tests: &Vec<TestCase>,
    measures: &Vec<Measures>,
    map_tokens: usize,
    file_tokens: usize,
) -> (r: Json)
    requires
        measures@.len() == p.buckets@.len(),
    ensures
        r@ == program_object(
            file@,
            source@,
            *p,
            tests@,
            measures@,
            map_tokens,
            file_tokens,
        ),
{
    let mut items: Vec<Json> = Vec::new();
    let mut i: usize = 0;
    assert(json::trees(items@) =~= Seq::<JsonView>::empty());
    while i < p.buckets.len()
        invariant
            i <= p.buckets@.len(),
            measures@.len() == p.buckets@.len(),
            json::trees(items@) == bucket_objects(*p, tests@, measures@, i as int),
        decreases p.buckets@.len() - i,
    {
        if p.buckets[i].user {
            let ghost before = json::trees(items@);
            let o = bucket_of(p, tests, &p.buckets[i], &measures[i]);
            items.push(o);
            assert(json::trees(items@) =~= before.push(o@));
        }
        i = i + 1;
    }
    let r = Json::object().with_text("file", file).with_text("source", source).with(
        "buckets",
        Json::list(items),
    ).with("tests", Json::count(tests.len())).with("map_tokens", Json::count(map_tokens)).with(
        "file_tokens",
        Json::count(file_tokens),
    );
    assert(r@->Object_0 =~= program_object(
        file@,
        source@,
        *p,
        tests@,
        measures@,
        map_tokens,
        file_tokens,
    )->Object_0);
    r
}

/// A line of the map.
pub open spec fn map_line(b: Bucket) -> Seq<char> {
    b.address@ + " "@ + text::or_else(text::opt_text(b.label), Seq::empty()) + program::contract(b)
        + " \""@ + b.desc@ + "\"\n"@
}

/// The map as the model sees it: what it costs is measured on this text.
pub open spec fn map_lines(buckets: Seq<Bucket>) -> Seq<char>
    decreases buckets.len(),
{
    if buckets.len() == 0 {
        Seq::empty()
    } else if buckets.last().user {
        map_lines(buckets.drop_last()) + map_line(buckets.last())
    } else {
        map_lines(buckets.drop_last())
    }
}

pub fn map_text(p: &Program) -> (r: String)
    ensures
        r@ == map_lines(p.buckets@),
{
    proof {
        reveal_strlit("");
        assert(""@ =~= Seq::<char>::empty());
    }
    let ghost all = p.buckets@;
    let mut s = String::new();
    let mut i: usize = 0;
    assert(all.take(0) =~= Seq::<Bucket>::empty());
    while i < p.buckets.len()
        invariant
            i <= all.len(),
            all == p.buckets@,
            ""@ == Seq::<char>::empty(),
            s@ == map_lines(all.take(i as int)),
        decreases all.len() - i,
    {
        assert(all.take(i + 1).drop_last() =~= all.take(i as int));
        let b = &p.buckets[i];
        if b.user {
            let mut line = b.address.clone();
            line.append(" ");
            line.append(&text::text_or(&b.label, ""));
            line.append(&program::contract_of(b));
            line.append(" \"");
            line.append(&b.desc);
            line.append("\"\n");
            s.append(&line);
        }
        i = i + 1;
    }
    assert(all.take(all.len() as int) =~= all);
    s
}

// ---------------------------------------------------------------------- find

/// A match, with its score per query word.
pub open spec fn match_object(m: MatchView, score: JsonView) -> JsonView {
    JsonView::Object(
        seq![
            ("address"@, JsonView::Text(m.address)),
            ("label"@, json::text_or_null(m.label)),
            ("desc"@, JsonView::Text(m.desc)),
            ("contract"@, JsonView::Text(m.contract)),
            ("score"@, score),
            ("matched"@, json::text_array(m.matched)),
        ],
    )
}

fn match_value(m: &Match, score: &Json) -> (r: Json)
    ensures
        r@ == match_object(m@, score@),
{
    let r = Json::object().with_text("address", &m.address).with(
        "label",
        Json::text_or_null(&m.label),
    ).with_text("desc", &m.desc).with_text("contract", &m.contract).with(
        "score",
        score.copy(),
    ).with("matched", Json::texts(&m.matched));
    assert(r@->Object_0 =~= match_object(m@, score@)->Object_0);
    r
}

/// What a search found.
pub open spec fn find_object(query: Seq<char>, matches: Seq<MatchView>, scores: Seq<JsonView>) -> JsonView {
    JsonView::Object(
        seq![
            ("query"@, JsonView::Text(query)),
            (
                "matches"@,
                JsonView::Array(
                    Seq::new(matches.len(), |i: int| match_object(matches[i], scores[i])),
                ),
            ),
        ],
    )
}

/// What a search found. `scores` holds the score of every match.
pub fn find(query: &str, matches: &Vec<Match>, scores: &Vec<Json>) -> (r: Json)
    requires
        matches@.len() == scores@.len(),
    ensures
        r@ == find_object(query@, index::views(matches@), json::trees(scores@)),
{
    let ghost want = find_object(query@, index::views(matches@), json::trees(scores@));
    let ghost list = want->Object_0[1].1->Array_0;
    let mut items: Vec<Json> = Vec::new();
    let mut i: usize = 0;
    while i < matches.len()
        invariant
            i <= matches@.len(),
            matches@.len() == scores@.len(),
            items@.len() == i,
            list == find_object(
                query@,
                index::views(matches@),
                json::trees(scores@),
            )->Object_0[1].1->Array_0,
            forall|k: int| 0 <= k < i ==> (#[trigger] items@[k])@ == list[k],
        decreases matches@.len() - i,
    {
        items.push(match_value(&matches[i], &scores[i]));
        i = i + 1;
    }
    assert(json::trees(items@) =~= list);
    let r = Json::object().with_text("query", query).with("matches", Json::list(items));
    assert(r@->Object_0 =~= want->Object_0);
    r
}

// ------------------------------------------------------------------- context

/// One arm of the comparison: its cost and its text, or why there is none.
pub open spec fn arm_object(strategy: Strategy, built: Result<RenderedContext, String>) -> JsonView {
    match built {
        Ok(c) => JsonView::Object(
            seq![
                ("strategy"@, JsonView::Text(c.strategy.name())),
                ("tokens"@, JsonView::Unsigned(c.tokens as u64)),
                ("text"@, JsonView::Text(c.text@)),
            ],
        ),
        Err(e) => JsonView::Object(
            seq![
                ("strategy"@, JsonView::Text(strategy.name())),
                ("error"@, JsonView::Text(e@)),
            ],
        ),
    }
}

fn arm(strategy: Strategy, built: &Result<RenderedContext, String>) -> (r: Json)
    ensures
        r@ == arm_object(strategy, *built),
{
    let r = match built {
        Ok(c) => Json::object().with_text("strategy", c.strategy.as_str()).with(
            "tokens",
            Json::count(c.tokens),
        ).with_text("text", &c.text),
        Err(e) => Json::object().with_text("strategy", strategy.as_str()).with_text("error", e),
    };
    assert(r@->Object_0 =~= arm_object(strategy, *built)->Object_0);
    r
}

/// Both arms of the comparison for one bucket.
pub open spec fn context_object(
    bucket: Seq<char>,
    file: Result<RenderedContext, String>,
    sub: Result<RenderedContext, String>,
) -> JsonView {
    JsonView::Object(
        seq![
            ("bucket"@, JsonView::Text(bucket)),
            (
                "arms"@,
                JsonView::Array(
                    seq![arm_object(Strategy::WholeFile, file), arm_object(Strategy::Subgraph, sub)],
                ),
            ),
        ],
    )
}

pub fn context(
    bucket: &str,
    file: &Result<RenderedContext, String>,
    sub: &Result<RenderedContext, String>,
) -> (r: Json)
    ensures
        r@ == context_object(bucket@, *file, *sub),
{
    let arms = Json::array().and(arm(Strategy::WholeFile, file)).and(
        arm(Strategy::Subgraph, sub),
    );
    assert(arms@->Array_0 =~= seq![
        arm_object(Strategy::WholeFile, *file),
        arm_object(Strategy::Subgraph, *sub),
    ]);
    let r = Json::object().with_text("bucket", bucket).with("arms", arms);
    assert(r@->Object_0 =~= context_object(bucket@, *file, *sub)->Object_0);
    r
}

// --------------------------------------------------------------------- tests

/// A test that was run.
pub open spec fn test_object(t: TestOutcome) -> JsonView {
    JsonView::Object(
        seq![
            ("id"@, JsonView::Text(t.id@)),
            ("subject"@, json::text_or_null(text::opt_text(t.subject))),
            ("desc"@, JsonView::Text(t.desc@)),
            ("passed"@, JsonView::Bool(t.passes())),
            ("error"@, json::text_or_null(text::opt_text(t.error))),
        ],
    )
}

fn test_value(t: &TestOutcome) -> (r: Json)
    ensures
        r@ == test_object(*t),
{
    let r = Json::object().with_text("id", &t.id).with(
        "subject",
        Json::text_or_null(&t.subject),
    ).with_text("desc", &t.desc).with("passed", Json::Bool(t.passed())).with(
        "error",
        Json::text_or_null(&t.error),
    );
    assert(r@->Object_0 =~= test_object(*t)->Object_0);
    r
}

/// All tests that were run, and how many passed.
pub open spec fn tests_object(tests: Seq<TestOutcome>) -> JsonView {
    JsonView::Object(
        seq![
            ("total"@, JsonView::Unsigned(tests.len() as u64)),
            ("passed"@, JsonView::Unsigned(gate::passing(tests) as u64)),
            ("results"@, JsonView::Array(tests.map_values(|t: TestOutcome| test_object(t)))),
        ],
    )
}

pub fn tests(outcomes: &Vec<TestOutcome>) -> (r: Json)
    ensures
        r@ == tests_object(outcomes@),
{
    let ghost all = outcomes@;
    let ghost list = all.map_values(|t: TestOutcome| test_object(t));
    let mut items: Vec<Json> = Vec::new();
    let mut passed: usize = 0;
    let mut i: usize = 0;
    assert(all.take(0) =~= Seq::<TestOutcome>::empty());
    while i < outcomes.len()
        invariant
            i <= all.len(),
            all == outcomes@,
            list == all.map_values(|t: TestOutcome| test_object(t)),
            passed <= i,
            passed == gate::passing(all.take(i as int)),
            items@.len() == i,
            forall|k: int| 0 <= k < i ==> (#[trigger] items@[k])@ == list[k],
        decreases all.len() - i,
    {
        assert(all.take(i + 1).drop_last() =~= all.take(i as int));
        items.push(test_value(&outcomes[i]));
        if outcomes[i].passed() {
            passed = passed + 1;
        }
        i = i + 1;
    }
    assert(all.take(all.len() as int) =~= all);
    assert(json::trees(items@) =~= list);
    let r = Json::object().with("total", Json::count(outcomes.len())).with(
        "passed",
        Json::count(passed),
    ).with("results", Json::list(items));
    assert(r@->Object_0 =~= tests_object(outcomes@)->Object_0);
    r
}

// ---------------------------------------------------------------------- rows

/// A row of a sweep, with its two ratios.
pub open spec fn row_object(r: Row, context_ratio: JsonView, effective_ratio: JsonView) -> JsonView {
    JsonView::Object(
        seq![
            ("buckets"@, JsonView::Unsigned(r.buckets as u64)),
            ("fanout"@, JsonView::Unsigned(r.fanout as u64)),
            ("file_tokens"@, JsonView::Unsigned(r.file_tokens as u64)),
            ("subgraph_tokens"@, JsonView::Unsigned(r.subgraph_tokens as u64)),
            ("agent_overhead"@, JsonView::Unsigned(r.agent_overhead as u64)),
            ("context_ratio"@, context_ratio),
            ("effective_ratio"@, effective_ratio),
        ],
    )
}

fn row_value(row: &Row, context_ratio: &Json, effective_ratio: &Json) -> (r: Json)
    ensures
        r@ == row_object(*row, context_ratio@, effective_ratio@),
{
    let r = Json::object().with("buckets", Json::count(row.buckets)).with(
        "fanout",
        Json::count(row.fanout),
    ).with("file_tokens", Json::count(row.file_tokens)).with(
        "subgraph_tokens",
        Json::count(row.subgraph_tokens),
    ).with("agent_overhead", Json::count(row.agent_overhead)).with(
        "context_ratio",
        context_ratio.copy(),
    ).with("effective_ratio", effective_ratio.copy());
    assert(r@->Object_0 =~= row_object(*row, context_ratio@, effective_ratio@)->Object_0);
    r
}

/// The rows of a sweep.
pub open spec fn rows_object(rows: Seq<Row>, ratios: Seq<(Json, Json)>) -> JsonView {
    JsonView::Object(
        seq![
            (
                "rows"@,
                JsonView::Array(
                    Seq::new(
                        rows.len(),
                        |i: int| row_object(rows[i], ratios[i].0@, ratios[i].1@),
                    ),
                ),
            ),
        ],
    )
}

/// The rows of a sweep. `ratios` holds the context ratio and the effective
/// ratio of every row.
pub fn sweep_rows(rows: &Vec<Row>, ratios: &Vec<(Json, Json)>) -> (r: Json)
    requires
        rows@.len() == ratios@.len(),
    ensures
        r@ == rows_object(rows@, ratios@),
{
    let ghost list = rows_object(rows@, ratios@)->Object_0[0].1->Array_0;
    let mut items: Vec<Json> = Vec::new();
    let mut i: usize = 0;
    while i < rows.len()
        invariant
            i <= rows@.len(),
            rows@.len() == ratios@.len(),
            items@.len() == i,
            list == rows_object(rows@, ratios@)->Object_0[0].1->Array_0,
            forall|k: int| 0 <= k < i ==> (#[trigger] items@[k])@ == list[k],
        decreases rows@.len() - i,
    {
        items.push(row_value(&rows[i], &ratios[i].0, &ratios[i].1));
        i = i + 1;
    }
    assert(json::trees(items@) =~= list);
    let r = Json::object().with("rows", Json::list(items));
    assert(r@->Object_0 =~= rows_object(rows@, ratios@)->Object_0);
    r
}

/// What one bucket costs against the whole file.
pub open spec fn cost_object(b: Bucket, sub: usize, file: usize, ratio: JsonView) -> JsonView {
    JsonView::Object(
        seq![
            ("label"@, JsonView::Text(program::label_or(b, b.address@))),
            ("subgraph"@, JsonView::Unsigned(sub as u64)),
            ("file"@, JsonView::Unsigned(file as u64)),
            ("ratio"@, ratio),
        ],
    )
}

/// What the user buckets among the first `n` cost.
pub open spec fn cost_objects(buckets: Seq<Bucket>, subs: Seq<(usize, Json)>, file: usize, n: int) -> Seq<
    JsonView,
>
    decreases n,
{
    if n <= 0 {
        Seq::empty()
    } else {
        let rest = cost_objects(buckets, subs, file, n - 1);
        if buckets[n - 1].user {
            rest.push(cost_object(buckets[n - 1], subs[n - 1].0, file, subs[n - 1].1@))
        } else {
            rest
        }
    }
}

/// Per-bucket subgraph cost.
pub open spec fn costs_object(buckets: Seq<Bucket>, subs: Seq<(usize, Json)>, file: usize) -> JsonView {
    JsonView::Object(
        seq![
            (
                "rows"@,
                JsonView::Array(cost_objects(buckets, subs, file, buckets.len() as int)),
            ),
        ],
    )
}

/// Per-bucket subgraph cost. `subs` holds, for every bucket, what its
/// neighbourhood costs and the ratio of the file to it.
pub fn subgraph_costs(p: &Program, subs: &Vec<(usize, Json)>, file: usize) -> (r: Json)
    requires
        subs@.len() == p.buckets@.len(),
    ensures
        r@ == costs_object(p.buckets@, subs@, file),
{
    let mut items: Vec<Json> = Vec::new();
    let mut i: usize = 0;
    assert(json::trees(items@) =~= Seq::<JsonView>::empty());
    while i < p.buckets.len()
        invariant
            i <= p.buckets@.len(),
            subs@.len() == p.buckets@.len(),
            json::trees(items@) == cost_objects(p.buckets@, subs@, file, i as int),
        decreases p.buckets@.len() - i,
    {
        let b = &p.buckets[i];
        if b.user {
            let ghost before = json::trees(items@);
            let o = Json::object().with_text("label", &text::text_or(&b.label, &b.address)).with(
                "subgraph",
                Json::count(subs[i].0),
            ).with("file", Json::count(file)).with("ratio", subs[i].1.copy());
            assert(o@->Object_0 =~= cost_object(
                *b,
                subs@[i as int].0,
                file,
                subs@[i as int].1@,
            )->Object_0);
            items.push(o);
            assert(json::trees(items@) =~= before.push(o@));
        }
        i = i + 1;
    }
    let r = Json::object().with("rows", Json::list(items));
    assert(r@->Object_0 =~= costs_object(p.buckets@, subs@, file)->Object_0);
    r
}

// ----------------------------------------------------------------------- run

/// What a run spent. `usd` is its price in dollars.
pub open spec fn spend_object(s: Spend, usd: JsonView) -> JsonView {
    JsonView::Object(
        seq![
            ("requests"@, JsonView::Unsigned(s.requests as u64)),
            ("input_tokens"@, JsonView::Unsigned(s.input_tokens as u64)),
            ("output_tokens"@, JsonView::Unsigned(s.output_tokens as u64)),
            ("cache_read_tokens"@, JsonView::Unsigned(s.cache_read_tokens as u64)),
            ("cache_write_tokens"@, JsonView::Unsigned(s.cache_write_tokens as u64)),
            ("usd"@, usd),
        ],
    )
}

fn spend_value(s: &Spend, usd: Json) -> (r: Json)
    ensures
        r@ == spend_object(*s, usd@),
{
    let ghost u = usd@;
    let r = Json::object().with("requests", Json::Unsigned(s.requests as u64)).with(
        "input_tokens",
        Json::Unsigned(s.input_tokens as u64),
    ).with("output_tokens", Json::Unsigned(s.output_tokens as u64)).with(
        "cache_read_tokens",
        Json::Unsigned(s.cache_read_tokens as u64),
    ).with("cache_write_tokens", Json::Unsigned(s.cache_write_tokens as u64)).with("usd", usd);
    assert(r@->Object_0 =~= spend_object(*s, u)->Object_0);
    r
}

/// A tool call that was carried out.
pub open spec fn record_object(r: agent::ToolRecordView) -> JsonView {
    JsonView::Object(
        seq![
            ("turn"@, JsonView::Unsigned(r.turn as u64)),
            ("name"@, JsonView::Text(r.name)),
            ("input"@, r.input),
            ("ok"@, JsonView::Bool(r.ok)),
            ("result"@, JsonView::Text(r.result)),
        ],
    )
}

fn record_value(t: &ToolRecord) -> (r: Json)
    ensures
        r@ == record_object(t@),
{
    let r = Json::object().with("turn", Json::count(t.turn)).with_text("name", &t.name).with(
        "input",
        t.input.copy(),
    ).with("ok", Json::Bool(t.ok)).with_text("result", &t.result);
    assert(r@->Object_0 =~= record_object(t@)->Object_0);
    r
}

/// What a run came to.
pub open spec fn run_object(run: AgentRun, usd: JsonView) -> JsonView {
    JsonView::Object(
        seq![
            ("ok"@, JsonView::Bool(run.ok)),
            ("edited"@, JsonView::Bool(run.edited)),
            ("turns"@, JsonView::Unsigned(run.turns as u64)),
            (
                "tool_calls"@,
                JsonView::Array(
                    agent::record_views(run.tool_calls@).map_values(
                        |r: agent::ToolRecordView| record_object(r),
                    ),
                ),
            ),
            ("summary"@, JsonView::Text(run.summary@)),
            ("source"@, json::text_or_null(text::opt_text(run.source))),
            ("spend"@, spend_object(run.spend, usd)),
            ("whole_file_tokens"@, JsonView::Unsigned(run.whole_file_tokens as u64)),
        ],
    )
}

/// What a run came to. `usd` is its price in dollars.
pub fn agent_run(run: &AgentRun, usd: Json) -> (r: Json)
    ensures
        r@ == run_object(*run, usd@),
{
    let ghost u = usd@;
    let ghost list = agent::record_views(run.tool_calls@).map_values(
        |r: agent::ToolRecordView| record_object(r),
    );
    let mut items: Vec<Json> = Vec::new();
    let mut i: usize = 0;
    while i < run.tool_calls.len()
        invariant
            i <= run.tool_calls@.len(),
            items@.len() == i,
            list == agent::record_views(run.tool_calls@).map_values(
                |r: agent::ToolRecordView| record_object(r),
            ),
            forall|k: int| 0 <= k < i ==> (#[trigger] items@[k])@ == list[k],
        decreases run.tool_calls@.len() - i,
    {
        items.push(record_value(&run.tool_calls[i]));
        i = i + 1;
    }
    assert(json::trees(items@) =~= list);
    let r = Json::object().with("ok", Json::Bool(run.ok)).with(
        "edited",
        Json::Bool(run.edited),
    ).with("turns", Json::count(run.turns)).with("tool_calls", Json::list(items)).with_text(
        "summary",
        &run.summary,
    ).with("source", Json::text_or_null(&run.source)).with(
        "spend",
        spend_value(&run.spend, usd),
    ).with("whole_file_tokens", Json::count(run.whole_file_tokens));
    assert(r@->Object_0 =~= run_object(*run, u)->Object_0);
    r
}

/// What the whole-file arm came to.
pub open spec fn baseline_object(b: BaselineRun, usd: JsonView) -> JsonView {
    JsonView::Object(
        seq![
            ("ok"@, JsonView::Bool(b.ok)),
            ("edited"@, JsonView::Bool(b.edited)),
            ("compiles"@, JsonView::Bool(b.compiles)),
            ("tests_pass"@, JsonView::Bool(b.tests_pass)),
            ("error"@, json::text_or_null(text::opt_text(b.error))),
            ("source"@, json::text_or_null(text::opt_text(b.source))),
            ("spend"@, spend_object(b.spend, usd)),
            ("changed_lines"@, JsonView::Unsigned(b.changed_lines as u64)),
        ],
    )
}

/// What the whole-file arm came to. `usd` is its price in dollars.
pub fn baseline_run(b: &BaselineRun, usd: Json) -> (r: Json)
    ensures
        r@ == baseline_object(*b, usd@),
{
    let ghost u = usd@;
    let r = Json::object().with("ok", Json::Bool(b.ok)).with(
        "edited",
        Json::Bool(b.edited),
    ).with("compiles", Json::Bool(b.compiles)).with("tests_pass", Json::Bool(b.tests_pass)).with(
        "error",
        Json::text_or_null(&b.error),
    ).with("source", Json::text_or_null(&b.source)).with("spend", spend_value(&b.spend, usd)).with(
        "changed_lines",
        Json::count(b.changed_lines),
    );
    assert(r@->Object_0 =~= baseline_object(*b, u)->Object_0);
    r
}

/// A failure.
pub open spec fn error_object(message: Seq<char>) -> JsonView {
    JsonView::Object(seq![("error"@, JsonView::Text(message))])
}

pub fn error(message: &str) -> (r: Json)
    ensures
        r@ == error_object(message@),
{
    let r = Json::object().with_text("error", message);
    assert(r@->Object_0 =~= error_object(message@)->Object_0);
    r
}

// --------------------------------------------------------- rules of the routes

/// How many matches a search returns.
pub const FIND_LIMIT: usize = 8;

/// How many turns the agent may take.
pub const MAX_TURNS: usize = 12;

/// The depth of a neighbourhood.
pub const DEPTH: usize = 1;

/// How many helpers the programs of the fan-out sweep have.
pub const FANOUT_HELPERS: usize = 82;

/// The sizes of the sweep.
pub fn sweep_sizes() -> (r: Vec<usize>)
    ensures
        r@ == seq![2usize, 5, 10, 20, 40, 80, 160, 320],
{
    vec![2, 5, 10, 20, 40, 80, 160, 320]
}

/// The fan-outs of the fan-out sweep. Capped at 6: the language allows 12 calls
/// per bucket and counts core calls too, so an infix `a + b + c` chain costs a
/// call per operator.
pub fn fanouts() -> (r: Vec<usize>)
    ensures
        r@ == seq![0usize, 1, 2, 4, 6],
{
    vec![0, 1, 2, 4, 6]
}

/// The UI has no approval prompt, so commands stay off.
pub fn ui_approval() -> (r: ApprovalMode)
    ensures
        r == ApprovalMode::Never,
{
    ApprovalMode::Never
}

// ------------------------------------------------------------------ requests

/// The number in the field `key`; `None` where it is none.
pub open spec fn number_in(raw: JsonView, key: Seq<char>) -> Option<JsonView> {
    match json::get(raw, key) {
        Some(JsonView::Unsigned(n)) => Some(JsonView::Unsigned(n)),
        Some(JsonView::Negative(n)) => Some(JsonView::Negative(n)),
        Some(JsonView::Fraction(n)) => Some(JsonView::Fraction(n)),
        _ => None,
    }
}

fn number_of(raw: &Json, key: &str) -> (r: Option<Json>)
    ensures
        json::opt_tree(r) == number_in(raw@, key@),
{
    match raw.get(key) {
        Some(v) => match v {
            Json::Unsigned(_) => Some(v.copy()),
            Json::Negative(_) => Some(v.copy()),
            Json::Fraction(_) => Some(v.copy()),
            _ => None,
        },
        None => None,
    }
}

/// A request to edit the program.
pub struct EditRequest {
    pub goal: String,
    /// The ceiling in dollars, if one was given.
    pub max_usd: Option<Json>,
    pub max_requests: u32,
    /// Persist the edit.
    pub write: bool,
}

/// A request to edit the program, as contracts speak of it.
pub struct EditRequestView {
    pub goal: Seq<char>,
    pub max_usd: Option<JsonView>,
    pub max_requests: u32,
    pub write: bool,
}

impl View for EditRequest {
    type V = EditRequestView;

    open spec fn view(&self) -> EditRequestView {
        EditRequestView {
            goal: self.goal@,
            max_usd: json::opt_tree(self.max_usd),
            max_requests: self.max_requests,
            write: self.write,
        }
    }
}

/// The ceiling on requests that was asked for, in 32 bits; 6 if none was.
pub open spec fn requests_in(raw: JsonView) -> u32 {
    match json::get(raw, "max_requests"@) {
        Some(JsonView::Unsigned(n)) => (n % 0x1_0000_0000) as u32,
        _ => 6,
    }
}

/// What is asked of the agent.
pub open spec fn edit_asked(raw: JsonView) -> Result<EditRequestView, Seq<char>> {
    let goal = json::get_text_or_empty(raw, "goal"@);
    if text::trim(goal).len() == 0 {
        Err("say what you want changed"@)
    } else {
        Ok(
            EditRequestView {
                goal,
                max_usd: number_in(raw, "max_usd"@),
                max_requests: requests_in(raw),
                write: json::is_true(raw, "write"@),
            },
        )
    }
}

/// A decoded request, as contracts speak of it.
pub open spec fn edit_outcome(r: Result<EditRequest, String>) -> Result<EditRequestView, Seq<char>> {
    match r {
        Ok(q) => Ok(q@),
        Err(e) => Err(e@),
    }
}

pub fn read_edit(raw: &Json) -> (r: Result<EditRequest, String>)
    ensures
        edit_outcome(r) == edit_asked(raw@),
{
    let goal = raw.get_text_or_empty("goal");
    if text::trimmed(&goal).as_str().is_empty() {
        return Err("say what you want changed".to_owned());
    }
    let max_requests: u32 = match raw.get("max_requests") {
        Some(Json::Unsigned(n)) => (*n % 0x1_0000_0000) as u32,
        _ => 6,
    };
    Ok(
        EditRequest {
            goal,
            max_usd: number_of(raw, "max_usd"),
            max_requests,
            write: raw.is_true("write"),
        },
    )
}

/// What the body of a request asks of the agent.
pub fn edit_request(body: &str) -> (r: Result<EditRequest, String>)
    ensures
        edit_outcome(r) == match json::parsed_json(body@) {
            Ok(raw) => edit_asked(raw),
            Err(e) => Err(e),
        },
{
    match json::parse(body) {
        Ok(raw) => read_edit(&raw),
        Err(e) => Err(e),
    }
}

/// The ceilings of a run from the UI.
pub open spec fn ui_budget(max_requests: u32, max_usd: u64) -> Budget {
    Budget { max_requests, max_input_tokens: 200_000, max_output_tokens: 32_000, max_usd }
}

/// The ceilings of an edit from the UI; a quarter of a dollar if none was
/// given.
pub fn edit_budget(max_requests: u32, max_usd: Option<u64>) -> (r: Budget)
    ensures
        r == ui_budget(
            max_requests,
            match max_usd {
                Some(m) => m,
                None => 25_000_000,
            },
        ),
{
    Budget {
        max_requests,
        max_input_tokens: 200_000,
        max_output_tokens: 32_000,
        max_usd: match max_usd {
            Some(m) => m,
            None => 25_000_000,
        },
    }
}

/// The ceilings of an experiment; thirty cents if none was given.
pub fn experiment_budget(max_usd: Option<u64>) -> (r: Budget)
    ensures
        r == ui_budget(
            8,
            match max_usd {
                Some(m) => m,
                None => 30_000_000,
            },
        ),
{
    Budget {
        max_requests: 8,
        max_input_tokens: 200_000,
        max_output_tokens: 32_000,
        max_usd: match max_usd {
            Some(m) => m,
            None => 30_000_000,
        },
    }
}

/// What is said to a request for the agent without a key.
pub fn key_message(e: &str) -> (r: String)
    ensures
        r@ == e@ + " — export it in the shell you launched this from, then restart"@,
{
    let mut s = e.to_owned();
    s.append(" — export it in the shell you launched this from, then restart");
    s
}

// --------------------------------------------------------------- experiments

/// A request to run one prompt through the arms.
pub struct ExperimentRequest {
    pub goal: String,
    pub model: String,
    /// The ceiling in dollars, if one was given.
    pub max_usd: Option<Json>,
    /// Run the bucket path.
    pub buckets: bool,
    /// Run the whole-file arm.
    pub whole_file: bool,
    /// Persist the edit of the bucket path.
    pub write: bool,
}

/// A request to run one prompt through the arms, as contracts speak of it.
pub struct ExperimentRequestView {
    pub goal: Seq<char>,
    pub model: Seq<char>,
    pub max_usd: Option<JsonView>,
    pub buckets: bool,
    pub whole_file: bool,
    pub write: bool,
}

impl View for ExperimentRequest {
    type V = ExperimentRequestView;

    open spec fn view(&self) -> ExperimentRequestView {
        ExperimentRequestView {
            goal: self.goal@,
            model: self.model@,
            max_usd: json::opt_tree(self.max_usd),
            buckets: self.buckets,
            whole_file: self.whole_file,
            write: self.write,
        }
    }
}

/// What is asked of an experiment: both arms, unless one is named, with
/// `default_model`, unless another is.
pub open spec fn experiment_asked(raw: JsonView, default_model: Seq<char>) -> Result<
    ExperimentRequestView,
    Seq<char>,
> {
    let goal = text::trim(json::get_text_or_empty(raw, "goal"@));
    let arms = text::or_else(json::get_text(raw, "arms"@), "both"@);
    if goal.len() == 0 {
        Err("say what you want changed"@)
    } else {
        Ok(
            ExperimentRequestView {
                goal,
                model: text::or_else(json::get_text(raw, "model"@), default_model),
                max_usd: number_in(raw, "max_usd"@),
                buckets: arms == "both"@ || arms == "buckets"@,
                whole_file: arms == "both"@ || arms == "file"@,
                write: json::is_true(raw, "write"@),
            },
        )
    }
}

/// A decoded request, as contracts speak of it.
pub open spec fn experiment_outcome(r: Result<ExperimentRequest, String>) -> Result<
    ExperimentRequestView,
    Seq<char>,
> {
    match r {
        Ok(q) => Ok(q@),
        Err(e) => Err(e@),
    }
}

fn text_in(raw: &Json, key: &str, other: &str) -> (r: String)
    ensures
        r@ == text::or_else(json::get_text(raw@, key@), other@),
{
    match raw.get_text(key) {
        Some(s) => s.clone(),
        None => other.to_owned(),
    }
}

pub fn read_experiment(raw: &Json, default_model: &str) -> (r: Result<ExperimentRequest, String>)
    ensures
        experiment_outcome(r) == experiment_asked(raw@, default_model@),
{
    let goal = text::trimmed(&raw.get_text_or_empty("goal"));
    if goal.as_str().is_empty() {
        return Err("say what you want changed".to_owned());
    }
    let arms = text_in(raw, "arms", "both");
    let both = text::same(&arms, "both");
    Ok(
        ExperimentRequest {
            goal,
            model: text_in(raw, "model", default_model),
            max_usd: number_of(raw, "max_usd"),
            buckets: both || text::same(&arms, "buckets"),
            whole_file: both || text::same(&arms, "file"),
            write: raw.is_true("write"),
        },
    )
}

/// What the body of a request asks of an experiment.
pub fn experiment_request(body: &str, default_model: &str) -> (r: Result<
    ExperimentRequest,
    String,
>)
    ensures
        experiment_outcome(r) == match json::parsed_json(body@) {
            Ok(raw) => experiment_asked(raw, default_model@),
            Err(e) => Err(e),
        },
{
    match json::parse(body) {
        Ok(raw) => read_experiment(&raw, default_model),
        Err(e) => Err(e),
    }
}

/// The fields of an object, with one more where it is given.
pub open spec fn with_given(o: JsonView, key: Seq<char>, v: Option<JsonView>) -> JsonView {
    match v {
        Some(x) => json::with_field(o, key, x),
        None => o,
    }
}

fn with_opt(o: Json, key: &str, v: &Option<Json>) -> (r: Json)
    ensures
        r@ == with_given(o@, key@, json::opt_tree(*v)),
{
    match v {
        Some(x) => o.with(key, x.copy()),
        None => o,
    }
}

/// What is recorded of an experiment: when, what, on which file, and what each
/// arm came to that was run.
pub open spec fn experiment_object(
    at: u64,
    goal: Seq<char>,
    model: Seq<char>,
    file: Seq<char>,
    file_tokens: usize,
    buckets: Option<JsonView>,
    whole_file: Option<JsonView>,
) -> JsonView {
    with_given(
        with_given(
            JsonView::Object(
                seq![
                    ("at"@, JsonView::Unsigned(at)),
                    ("goal"@, JsonView::Text(goal)),
                    ("model"@, JsonView::Text(model)),
                    ("file"@, JsonView::Text(file)),
                    ("file_tokens"@, JsonView::Unsigned(file_tokens as u64)),
                ],
            ),
            "buckets"@,
            buckets,
        ),
        "whole_file"@,
        whole_file,
    )
}

/// What is recorded of an experiment. `at` is in seconds of the epoch.
pub fn experiment(
    at: u64,
    request: &ExperimentRequest,
    file: &str,
    file_tokens: usize,
    buckets: &Option<Json>,
    whole_file: &Option<Json>,
) -> (r: Json)
    ensures
        r@ == experiment_object(
            at,
            request.goal@,
            request.model@,
            file@,
            file_tokens,
            json::opt_tree(*buckets),
            json::opt_tree(*whole_file),
        ),
{
    let base = Json::object().with("at", Json::Unsigned(at)).with_text(
        "goal",
        &request.goal,
    ).with_text("model", &request.model).with_text("file", file).with(
        "file_tokens",
        Json::count(file_tokens),
    );
    assert(base@->Object_0 =~= seq![
        ("at"@, JsonView::Unsigned(at)),
        ("goal"@, JsonView::Text(request.goal@)),
        ("model"@, JsonView::Text(request.model@)),
        ("file"@, JsonView::Text(file@)),
        ("file_tokens"@, JsonView::Unsigned(file_tokens as u64)),
    ]);
    with_opt(with_opt(base, "buckets", buckets), "whole_file", whole_file)
}

/// The values among what some lines parse to, newest first. A line that is no
/// JSON is passed over.
pub open spec fn newest_first(parsed: Seq<Result<JsonView, Seq<char>>>) -> Seq<JsonView>
    decreases parsed.len(),
{
    if parsed.len() == 0 {
        Seq::empty()
    } else {
        let rest = newest_first(parsed.drop_last());
        match parsed.last() {
            Ok(v) => seq![v] + rest,
            Err(_) => rest,
        }
    }
}

/// Everything recorded so far, newest first.
pub open spec fn runs_object(runs: Seq<JsonView>, log: Seq<char>) -> JsonView {
    JsonView::Object(seq![("runs"@, JsonView::Array(runs)), ("log"@, JsonView::Text(log))])
}

/// What some lines parse to.
pub open spec fn parses(v: Seq<Result<Json, String>>) -> Seq<Result<JsonView, Seq<char>>> {
    v.map_values(
        |r: Result<Json, String>|
            match r {
                Ok(j) => Ok::<JsonView, Seq<char>>(j@),
                Err(e) => Err::<JsonView, Seq<char>>(e@),
            },
    )
}

/// Everything recorded so far, newest first, from what the lines of the log
/// parse to.
pub fn list_runs(parsed: &Vec<Result<Json, String>>, log: &str) -> (r: Json)
    ensures
        r@ == runs_object(newest_first(parses(parsed@)), log@),
{
    let ghost all = parses(parsed@);
    let mut items: Vec<Json> = Vec::new();
    let mut n: usize = parsed.len();
    assert(all.take(n as int) =~= all);
    assert(json::trees(items@) + newest_first(all) =~= newest_first(all));
    while n > 0
        invariant
            n <= parsed@.len(),
            all == parses(parsed@),
            json::trees(items@) + newest_first(all.take(n as int)) == newest_first(all),
        decreases n,
    {
        assert(all.take(n as int).last() == all[n - 1]);
        assert(all.take(n as int).drop_last() =~= all.take(n - 1));
        let ghost before = json::trees(items@);
        let ghost rest = newest_first(all.take(n - 1));
        match &parsed[n - 1] {
            Ok(v) => {
                let c = v.copy();
                items.push(c);
                assert(json::trees(items@) =~= before.push(v@));
                assert(before.push(v@) + rest =~= before + (seq![v@] + rest));
            },
            Err(_) => {},
        }
        n = n - 1;
    }
    assert(all.take(0) =~= Seq::<Result<JsonView, Seq<char>>>::empty());
    assert(json::trees(items@) + newest_first(all.take(0)) =~= json::trees(items@));
    let r = Json::object().with("runs", Json::list(items)).with_text("log", log);
    assert(r@->Object_0 =~= runs_object(newest_first(all), log@)->Object_0);
    r
}

/// Everything recorded so far, newest first, from the text of the log.
pub fn runs(recorded: &str, log: &str) -> (r: Json)
    ensures
        r@ == runs_object(
            newest_first(text::lines(recorded@).map_values(|l: Seq<char>| json::parsed_json(l))),
            log@,
        ),
{
    let lines = text::lines_of(recorded);
    let ghost want = text::lines(recorded@).map_values(|l: Seq<char>| json::parsed_json(l));
    let mut parsed: Vec<Result<Json, String>> = Vec::new();
    let mut i: usize = 0;
    while i < lines.len()
        invariant
            i <= lines@.len(),
            text::texts(lines@) == text::lines(recorded@),
            want == text::lines(recorded@).map_values(|l: Seq<char>| json::parsed_json(l)),
            parsed@.len() == i,
            parses(parsed@) == want.take(i as int),
        decreases lines@.len() - i,
    {
        let ghost before = parses(parsed@);
        assert(text::texts(lines@)[i as int] == lines@[i as int]@);
        let one = json::parse(&lines[i]);
        parsed.push(one);
        assert(parses(parsed@) =~= before.push(want[i as int]));
        assert(want.take(i + 1) =~= want.take(i as int).push(want[i as int]));
        i = i + 1;
    }
    assert(text::texts(lines@).len() == lines@.len());
    assert(want.take(lines@.len() as int) =~= want);
    list_runs(&parsed, log)
}

// ---------------------------------------------------------------------- open

/// The name under which an uploaded program is kept: the last part of the name
/// it came with, since an uploaded path must not decide where anything lands on
/// disk, and a known extension.
pub open spec fn kept_name(name: Seq<char>) -> Seq<char> {
    let stem = text::or_else(sandbox::file_name(name), "uploaded.bkt"@);
    if text::ends_with(stem, ".bkt"@) || text::ends_with(stem, ".bucket"@) {
        stem
    } else {
        stem + ".bkt"@
    }
}

/// The directory that uploads are kept in, beside the open file.
pub const WORKSPACE: &'static str = ".bucketcode/";

/// The part of a path up to its last separator.
pub open spec fn directory(path: Seq<char>) -> Seq<char> {
    path.take(text::after_last(path, '/', path.len() as int))
}

/// Where an upload lands: in a workspace directory beside the open file, never
/// in place of it.
pub open spec fn upload_location(current: Seq<char>, name: Seq<char>) -> Seq<char> {
    directory(current) + WORKSPACE@ + name
}

/// Where the upload of that name lands while `current` is the open file.
pub fn upload_path(current: &str, name: &str) -> (r: String)
    ensures
        r@ == upload_location(current@, kept_name(name@)),
        r@ != current@,
{
    let v = text::chars_of(current);
    let k: usize = text::find_back(&v, '/', v.len());
    let mut s = text::string_of(&v, 0, k);
    assert(v@.subrange(0, k as int) =~= directory(current@));
    s.append(WORKSPACE);
    s.append(&keep_name(name));
    proof {
        law_kept_name_is_bare(name@);
        law_uploads_touch_no_earlier_file(current@, kept_name(name@), current@);
    }
    s
}

/// A program to load: the name to keep it under, and its source.
pub open spec fn open_asked(raw: JsonView) -> Result<(Seq<char>, Seq<char>), Seq<char>> {
    let source = json::get_text_or_empty(raw, "source"@);
    if text::trim(source).len() == 0 {
        Err("that file is empty"@)
    } else {
        Ok((kept_name(text::or_else(json::get_text(raw, "name"@), "uploaded.bkt"@)), source))
    }
}

/// A program to load, as contracts speak of it.
pub open spec fn open_outcome(r: Result<(String, String), String>) -> Result<
    (Seq<char>, Seq<char>),
    Seq<char>,
> {
    match r {
        Ok((name, source)) => Ok((name@, source@)),
        Err(e) => Err(e@),
    }
}

pub fn keep_name(name: &str) -> (r: String)
    ensures
        r@ == kept_name(name@),
{
    let mut stem = text::text_or(&sandbox::name_of(name), "uploaded.bkt");
    if !text::finishes(&stem, ".bkt") && !text::finishes(&stem, ".bucket") {
        stem.append(".bkt");
    }
    stem
}

pub fn read_open(raw: &Json) -> (r: Result<(String, String), String>)
    ensures
        open_outcome(r) == open_asked(raw@),
{
    let source = raw.get_text_or_empty("source");
    if text::trimmed(&source).as_str().is_empty() {
        return Err("that file is empty".to_owned());
    }
    Ok((keep_name(&text_in(raw, "name", "uploaded.bkt")), source))
}

/// The program that the body of a request asks to load.
pub fn open_request(body: &str) -> (r: Result<(String, String), String>)
    ensures
        open_outcome(r) == match json::parsed_json(body@) {
            Ok(raw) => open_asked(raw),
            Err(e) => Err(e),
        },
{
    match json::parse(body) {
        Ok(raw) => read_open(&raw),
        Err(e) => Err(e),
    }
}

/// How many buckets the user wrote.
pub open spec fn user_buckets(buckets: Seq<Bucket>) -> nat
    decreases buckets.len(),
{
    if buckets.len() == 0 {
        0
    } else {
        user_buckets(buckets.drop_last()) + if buckets.last().user {
            1nat
        } else {
            0nat
        }
    }
}

/// A program that was loaded.
pub open spec fn opened_object(file: Seq<char>, buckets: Seq<Bucket>, tests: usize) -> JsonView {
    JsonView::Object(
        seq![
            ("file"@, JsonView::Text(file)),
            ("buckets"@, JsonView::Unsigned(user_buckets(buckets) as u64)),
            ("tests"@, JsonView::Unsigned(tests as u64)),
        ],
    )
}

pub fn opened(file: &str, p: &Program, tests: usize) -> (r: Json)
    ensures
        r@ == opened_object(file@, p.buckets@, tests),
{
    let ghost all = p.buckets@;
    let mut n: usize = 0;
    let mut i: usize = 0;
    assert(all.take(0) =~= Seq::<Bucket>::empty());
    while i < p.buckets.len()
        invariant
            n <= i <= all.len(),
            all == p.buckets@,
            n == user_buckets(all.take(i as int)),
        decreases all.len() - i,
    {
        assert(all.take(i + 1).drop_last() =~= all.take(i as int));
        if p.buckets[i].user {
            n = n + 1;
        }
        i = i + 1;
    }
    assert(all.take(all.len() as int) =~= all);
    let r = Json::object().with_text("file", file).with("buckets", Json::count(n)).with(
        "tests",
        Json::count(tests),
    );
    assert(r@->Object_0 =~= opened_object(file@, p.buckets@, tests)->Object_0);
    r
}

/// What is said of a program that could not be saved.
pub fn not_saved(e: &str) -> (r: String)
    ensures
        r@ == "could not save: "@ + e@,
{
    let mut s = "could not save: ".to_owned();
    s.append(e);
    s
}

/// What is said of a program that does not compile. It is not loaded: every
/// other route would fail with no way back.
pub fn not_loaded(e: &str) -> (r: String)
    ensures
        r@ == "that file does not compile, so it was not loaded:\n\n"@ + e@,
{
    let mut s = "that file does not compile, so it was not loaded:\n\n".to_owned();
    s.append(e);
    s
}

// ---------------------------------------------------------------------- laws

/// An upload touches neither the open file nor one that was open before it: it
/// lands in a directory below that of the open file, so no file lies there whose
/// own directory is not longer.
pub proof fn law_uploads_touch_no_earlier_file(
    current: Seq<char>,
    name: Seq<char>,
    earlier: Seq<char>,
)
    requires
        !name.contains('/'),
        directory(earlier).len() <= directory(current).len(),
    ensures
        upload_location(current, name) != earlier,
        directory(upload_location(current, name)) == directory(current) + WORKSPACE@,
        directory(upload_location(current, name)).len() > directory(current).len(),
{
    reveal_strlit(".bucketcode/");
    let dir = directory(current) + WORKSPACE@;
    let r = dir + name;
    assert(WORKSPACE@.len() == 12 && WORKSPACE@[11] == '/');
    assert(dir.last() == '/');
    assert forall|i: int| dir.len() <= i < r.len() implies #[trigger] r[i] != '/' by {
        assert(name.contains(name[i - dir.len()]));
    }
    sandbox::lemma_after_last_is(r, '/', r.len() as int, dir.len() as int);
    assert(directory(r) =~= dir);
}

/// An uploaded program is kept under a bare file name, whatever name it came
/// with.
pub proof fn law_kept_name_is_bare(name: Seq<char>)
    ensures
        !kept_name(name).contains('/'),
        text::ends_with(kept_name(name), ".bkt"@) || text::ends_with(kept_name(name), ".bucket"@),
{
    reveal_strlit(".bkt");
    reveal_strlit("uploaded.bkt");
    assert(!".bkt"@.contains('/'));
    assert(!"uploaded.bkt"@.contains('/'));
    sandbox::lemma_file_name_is_bare(name);
    let stem = text::or_else(sandbox::file_name(name), "uploaded.bkt"@);
    assert(!stem.contains('/'));
    if !(text::ends_with(stem, ".bkt"@) || text::ends_with(stem, ".bucket"@)) {
        let kept = stem + ".bkt"@;
        assert(kept.subrange(kept.len() - 4, kept.len() as int) =~= ".bkt"@);
        assert forall|i: int| 0 <= i < kept.len() implies #[trigger] kept[i] != '/' by {
            if i < stem.len() {
                assert(stem.contains(stem[i]));
            } else {
                assert(".bkt"@.contains(".bkt"@[i - stem.len()]));
            }
        }
    }
}

/// The status tells whether there is a key, and the model.
pub proof fn law_status_tells_key_and_model(has_key: bool, model: Seq<char>)
    ensures
        ({
            let o = status_object(has_key, model);
            &&& json::get(o, "has_key"@) == Some(JsonView::Bool(has_key))
            &&& json::get(o, "model"@) == Some(JsonView::Text(model))
        }),
{
    reveal_strlit("has_key");
    reveal_strlit("model");
    assert("has_key"@.len() == 7);
    assert("model"@.len() == 5);
    let f = status_object(has_key, model)->Object_0;
    assert(f[0].0 == "has_key"@);
    assert(f[1].0 == "model"@);
    json::law_last_value_of_a_key_counts(f, "has_key"@, 0);
    json::law_last_value_of_a_key_counts(f, "model"@, 1);
}

/// A bucket is told with its address, contract and description, with what it calls,
/// what calls it and what tests it, and with what was measured of it.
pub proof fn law_bucket_is_told_in_full(p: Program, tests: Seq<TestCase>, b: Bucket, m: Measures)
    ensures
        ({
            let o = bucket_object(p, tests, b, m);
            &&& json::get(o, "address"@) == Some(JsonView::Text(b.address@))
            &&& json::get(o, "label"@) == Some(match b.label {
                Some(l) => JsonView::Text(l@),
                None => JsonView::Null,
            })
            &&& json::get(o, "contract"@) == Some(JsonView::Text(program::contract(b)))
            &&& json::get(o, "desc"@) == Some(JsonView::Text(b.desc@))
            &&& json::get(o, "calls"@) == Some(json::text_array(user_names(p.buckets@, match program::node_at(p.graph@, b.address@) {
                Some(n) => text::texts(n.calls@),
                None => Seq::empty(),
            })))
            &&& json::get(o, "called_by"@) == Some(json::text_array(user_names(p.buckets@, match program::node_at(p.graph@, b.address@) {
                Some(n) => text::texts(n.called_by@),
                None => Seq::empty(),
            })))
            &&& json::get(o, "tests"@) == Some(json::text_array(tests_on(tests, text::opt_text(b.label))))
            &&& json::get(o, "complexity"@) == Some(JsonView::Unsigned(m.complexity as u64))
            &&& json::get(o, "body"@) == Some(JsonView::Text(m.body@))
            &&& json::get(o, "desc_tokens"@) == Some(JsonView::Unsigned(m.desc_tokens as u64))
            &&& json::get(o, "body_tokens"@) == Some(JsonView::Unsigned(m.body_tokens as u64))
        }),
{
    reveal_strlit("address");
    reveal_strlit("label");
    reveal_strlit("contract");
    reveal_strlit("desc");
    reveal_strlit("calls");
    reveal_strlit("called_by");
    reveal_strlit("tests");
    reveal_strlit("complexity");
    reveal_strlit("body");
    reveal_strlit("desc_tokens");
    reveal_strlit("body_tokens");
    assert("address"@.len() == 7);
    assert("label"@.len() == 5 && "label"@[0] == 'l');
    assert("contract"@.len() == 8);
    assert("desc"@.len() == 4 && "desc"@[0] == 'd');
    assert("calls"@.len() == 5 && "calls"@[0] == 'c');
    assert("called_by"@.len() == 9);
    assert("tests"@.len() == 5 && "tests"@[0] == 't');
    assert("complexity"@.len() == 10);
    assert("body"@.len() == 4 && "body"@[0] == 'b');
    assert("desc_tokens"@.len() == 11 && "desc_tokens"@[0] == 'd');
    assert("body_tokens"@.len() == 11 && "body_tokens"@[0] == 'b');
    let f = bucket_object(p, tests, b, m)->Object_0;
    assert(f[0].0 == "address"@);
    assert(f[1].0 == "label"@);
    assert(f[2].0 == "contract"@);
    assert(f[3].0 == "desc"@);
    assert(f[4].0 == "calls"@);
    assert(f[5].0 == "called_by"@);
    assert(f[6].0 == "tests"@);
    assert(f[7].0 == "complexity"@);
    assert(f[8].0 == "body"@);
    assert(f[9].0 == "desc_tokens"@);
    assert(f[10].0 == "body_tokens"@);
    json::law_last_value_of_a_key_counts(f, "address"@, 0);
    json::law_last_value_of_a_key_counts(f, "label"@, 1);
    json::law_last_value_of_a_key_counts(f, "contract"@, 2);
    json::law_last_value_of_a_key_counts(f, "desc"@, 3);
    json::law_last_value_of_a_key_counts(f, "calls"@, 4);
    json::law_last_value_of_a_key_counts(f, "called_by"@, 5);
    json::law_last_value_of_a_key_counts(f, "tests"@, 6);
    json::law_last_value_of_a_key_counts(f, "complexity"@, 7);
    json::law_last_value_of_a_key_counts(f, "body"@, 8);
    json::law_last_value_of_a_key_counts(f, "desc_tokens"@, 9);
    json::law_last_value_of_a_key_counts(f, "body_tokens"@, 10);
}

/// A program is told with its file and source, its buckets, the number of its tests,
/// and what its map and its file cost.
pub proof fn law_program_is_told_in_full(
    file: Seq<char>,
    source: Seq<char>,
    p: Program,
    tests: Seq<TestCase>,
    m: Seq<Measures>,
    map_tokens: usize,
    file_tokens: usize,
)
    ensures
        ({
            let o = program_object(file, source, p, tests, m, map_tokens, file_tokens);
            &&& json::get(o, "file"@) == Some(JsonView::Text(file))
            &&& json::get(o, "source"@) == Some(JsonView::Text(source))
            &&& json::get(o, "buckets"@) == Some(JsonView::Array(bucket_objects(p, tests, m, p.buckets@.len() as int)))
            &&& json::get(o, "tests"@) == Some(JsonView::Unsigned(tests.len() as u64))
            &&& json::get(o, "map_tokens"@) == Some(JsonView::Unsigned(map_tokens as u64))
            &&& json::get(o, "file_tokens"@) == Some(JsonView::Unsigned(file_tokens as u64))
        }),
{
    reveal_strlit("file");
    reveal_strlit("source");
    reveal_strlit("buckets");
    reveal_strlit("tests");
    reveal_strlit("map_tokens");
    reveal_strlit("file_tokens");
    assert("file"@.len() == 4);
    assert("source"@.len() == 6);
    assert("buckets"@.len() == 7);
    assert("tests"@.len() == 5);
    assert("map_tokens"@.len() == 10);
    assert("file_tokens"@.len() == 11);
    let f = program_object(file, source, p, tests, m, map_tokens, file_tokens)->Object_0;
    assert(f[0].0 == "file"@);
    assert(f[1].0 == "source"@);
    assert(f[2].0 == "buckets"@);
    assert(f[3].0 == "tests"@);
    assert(f[4].0 == "map_tokens"@);
    assert(f[5].0 == "file_tokens"@);
    json::law_last_value_of_a_key_counts(f, "file"@, 0);
    json::law_last_value_of_a_key_counts(f, "source"@, 1);
    json::law_last_value_of_a_key_counts(f, "buckets"@, 2);
    json::law_last_value_of_a_key_counts(f, "tests"@, 3);
    json::law_last_value_of_a_key_counts(f, "map_tokens"@, 4);
    json::law_last_value_of_a_key_counts(f, "file_tokens"@, 5);
}

/// A match is told with its address, label, description and contract, its score, and
/// the words that matched.
pub proof fn law_match_is_told_in_full(m: MatchView, score: JsonView)
    ensures
        ({
            let o = match_object(m, score);
            &&& json::get(o, "address"@) == Some(JsonView::Text(m.address))
            &&& json::get(o, "label"@) == Some(match m.label {
                Some(l) => JsonView::Text(l),
                None => JsonView::Null,
            })
            &&& json::get(o, "desc"@) == Some(JsonView::Text(m.desc))
            &&& json::get(o, "contract"@) == Some(JsonView::Text(m.contract))
            &&& json::get(o, "score"@) == Some(score)
            &&& json::get(o, "matched"@) == Some(json::text_array(m.matched))
        }),
{
    reveal_strlit("address");
    reveal_strlit("label");
    reveal_strlit("desc");
    reveal_strlit("contract");
    reveal_strlit("score");
    reveal_strlit("matched");
    assert("address"@.len() == 7 && "address"@[0] == 'a');
    assert("label"@.len() == 5 && "label"@[0] == 'l');
    assert("desc"@.len() == 4);
    assert("contract"@.len() == 8);
    assert("score"@.len() == 5 && "score"@[0] == 's');
    assert("matched"@.len() == 7 && "matched"@[0] == 'm');
    let f = match_object(m, score)->Object_0;
    assert(f[0].0 == "address"@);
    assert(f[1].0 == "label"@);
    assert(f[2].0 == "desc"@);
    assert(f[3].0 == "contract"@);
    assert(f[4].0 == "score"@);
    assert(f[5].0 == "matched"@);
    json::law_last_value_of_a_key_counts(f, "address"@, 0);
    json::law_last_value_of_a_key_counts(f, "label"@, 1);
    json::law_last_value_of_a_key_counts(f, "desc"@, 2);
    json::law_last_value_of_a_key_counts(f, "contract"@, 3);
    json::law_last_value_of_a_key_counts(f, "score"@, 4);
    json::law_last_value_of_a_key_counts(f, "matched"@, 5);
}

/// A test is told with its id, subject and description, whether it passed, and the
/// error if there was one.
pub proof fn law_test_is_told_in_full(t: TestOutcome)
    ensures
        ({
            let o = test_object(t);
            &&& json::get(o, "id"@) == Some(JsonView::Text(t.id@))
            &&& json::get(o, "subject"@) == Some(match t.subject {
                Some(s) => JsonView::Text(s@),
                None => JsonView::Null,
            })
            &&& json::get(o, "desc"@) == Some(JsonView::Text(t.desc@))
            &&& json::get(o, "passed"@) == Some(JsonView::Bool(t.expect_error == (t.error is Some)))
            &&& json::get(o, "error"@) == Some(match t.error {
                Some(e) => JsonView::Text(e@),
                None => JsonView::Null,
            })
        }),
{
    reveal_strlit("id");
    reveal_strlit("subject");
    reveal_strlit("desc");
    reveal_strlit("passed");
    reveal_strlit("error");
    assert("id"@.len() == 2);
    assert("subject"@.len() == 7);
    assert("desc"@.len() == 4);
    assert("passed"@.len() == 6);
    assert("error"@.len() == 5);
    let f = test_object(t)->Object_0;
    assert(f[0].0 == "id"@);
    assert(f[1].0 == "subject"@);
    assert(f[2].0 == "desc"@);
    assert(f[3].0 == "passed"@);
    assert(f[4].0 == "error"@);
    json::law_last_value_of_a_key_counts(f, "id"@, 0);
    json::law_last_value_of_a_key_counts(f, "subject"@, 1);
    json::law_last_value_of_a_key_counts(f, "desc"@, 2);
    json::law_last_value_of_a_key_counts(f, "passed"@, 3);
    json::law_last_value_of_a_key_counts(f, "error"@, 4);
}

/// A measured row is told column by column.
pub proof fn law_measured_row_is_told_in_full(
    r: Row,
    context_ratio: JsonView,
    effective_ratio: JsonView,
)
    ensures
        ({
            let o = row_object(r, context_ratio, effective_ratio);
            &&& json::get(o, "buckets"@) == Some(JsonView::Unsigned(r.buckets as u64))
            &&& json::get(o, "fanout"@) == Some(JsonView::Unsigned(r.fanout as u64))
            &&& json::get(o, "file_tokens"@) == Some(JsonView::Unsigned(r.file_tokens as u64))
            &&& json::get(o, "subgraph_tokens"@) == Some(JsonView::Unsigned(r.subgraph_tokens as u64))
            &&& json::get(o, "agent_overhead"@) == Some(JsonView::Unsigned(r.agent_overhead as u64))
            &&& json::get(o, "context_ratio"@) == Some(context_ratio)
            &&& json::get(o, "effective_ratio"@) == Some(effective_ratio)
        }),
{
    reveal_strlit("buckets");
    reveal_strlit("fanout");
    reveal_strlit("file_tokens");
    reveal_strlit("subgraph_tokens");
    reveal_strlit("agent_overhead");
    reveal_strlit("context_ratio");
    reveal_strlit("effective_ratio");
    assert("buckets"@.len() == 7);
    assert("fanout"@.len() == 6);
    assert("file_tokens"@.len() == 11);
    assert("subgraph_tokens"@.len() == 15 && "subgraph_tokens"@[0] == 's');
    assert("agent_overhead"@.len() == 14);
    assert("context_ratio"@.len() == 13);
    assert("effective_ratio"@.len() == 15 && "effective_ratio"@[0] == 'e');
    let f = row_object(r, context_ratio, effective_ratio)->Object_0;
    assert(f[0].0 == "buckets"@);
    assert(f[1].0 == "fanout"@);
    assert(f[2].0 == "file_tokens"@);
    assert(f[3].0 == "subgraph_tokens"@);
    assert(f[4].0 == "agent_overhead"@);
    assert(f[5].0 == "context_ratio"@);
    assert(f[6].0 == "effective_ratio"@);
    json::law_last_value_of_a_key_counts(f, "buckets"@, 0);
    json::law_last_value_of_a_key_counts(f, "fanout"@, 1);
    json::law_last_value_of_a_key_counts(f, "file_tokens"@, 2);
    json::law_last_value_of_a_key_counts(f, "subgraph_tokens"@, 3);
    json::law_last_value_of_a_key_counts(f, "agent_overhead"@, 4);
    json::law_last_value_of_a_key_counts(f, "context_ratio"@, 5);
    json::law_last_value_of_a_key_counts(f, "effective_ratio"@, 6);
}

/// What a bucket costs to edit is told beside what the file costs.
pub proof fn law_cost_is_told_in_full(b: Bucket, sub: usize, file: usize, ratio: JsonView)
    ensures
        ({
            let o = cost_object(b, sub, file, ratio);
            &&& json::get(o, "label"@) == Some(match b.label {
                Some(l) => JsonView::Text(l@),
                None => JsonView::Text(b.address@),
            })
            &&& json::get(o, "subgraph"@) == Some(JsonView::Unsigned(sub as u64))
            &&& json::get(o, "file"@) == Some(JsonView::Unsigned(file as u64))
            &&& json::get(o, "ratio"@) == Some(ratio)
        }),
{
    reveal_strlit("label");
    reveal_strlit("subgraph");
    reveal_strlit("file");
    reveal_strlit("ratio");
    assert("label"@.len() == 5 && "label"@[0] == 'l');
    assert("subgraph"@.len() == 8);
    assert("file"@.len() == 4);
    assert("ratio"@.len() == 5 && "ratio"@[0] == 'r');
    let f = cost_object(b, sub, file, ratio)->Object_0;
    assert(f[0].0 == "label"@);
    assert(f[1].0 == "subgraph"@);
    assert(f[2].0 == "file"@);
    assert(f[3].0 == "ratio"@);
    json::law_last_value_of_a_key_counts(f, "label"@, 0);
    json::law_last_value_of_a_key_counts(f, "subgraph"@, 1);
    json::law_last_value_of_a_key_counts(f, "file"@, 2);
    json::law_last_value_of_a_key_counts(f, "ratio"@, 3);
}

/// A spend is told total by total.
pub proof fn law_spend_is_told_in_full(s: Spend, usd: JsonView)
    ensures
        ({
            let o = spend_object(s, usd);
            &&& json::get(o, "requests"@) == Some(JsonView::Unsigned(s.requests as u64))
            &&& json::get(o, "input_tokens"@) == Some(JsonView::Unsigned(s.input_tokens as u64))
            &&& json::get(o, "output_tokens"@) == Some(JsonView::Unsigned(s.output_tokens as u64))
            &&& json::get(o, "cache_read_tokens"@) == Some(JsonView::Unsigned(s.cache_read_tokens as u64))
            &&& json::get(o, "cache_write_tokens"@) == Some(JsonView::Unsigned(s.cache_write_tokens as u64))
            &&& json::get(o, "usd"@) == Some(usd)
        }),
{
    reveal_strlit("requests");
    reveal_strlit("input_tokens");
    reveal_strlit("output_tokens");
    reveal_strlit("cache_read_tokens");
    reveal_strlit("cache_write_tokens");
    reveal_strlit("usd");
    assert("requests"@.len() == 8);
    assert("input_tokens"@.len() == 12);
    assert("output_tokens"@.len() == 13);
    assert("cache_read_tokens"@.len() == 17);
    assert("cache_write_tokens"@.len() == 18);
    assert("usd"@.len() == 3);
    let f = spend_object(s, usd)->Object_0;
    assert(f[0].0 == "requests"@);
    assert(f[1].0 == "input_tokens"@);
    assert(f[2].0 == "output_tokens"@);
    assert(f[3].0 == "cache_read_tokens"@);
    assert(f[4].0 == "cache_write_tokens"@);
    assert(f[5].0 == "usd"@);
    json::law_last_value_of_a_key_counts(f, "requests"@, 0);
    json::law_last_value_of_a_key_counts(f, "input_tokens"@, 1);
    json::law_last_value_of_a_key_counts(f, "output_tokens"@, 2);
    json::law_last_value_of_a_key_counts(f, "cache_read_tokens"@, 3);
    json::law_last_value_of_a_key_counts(f, "cache_write_tokens"@, 4);
    json::law_last_value_of_a_key_counts(f, "usd"@, 5);
}

/// A call that was made is told with its turn, tool and input, and what came of it.
pub proof fn law_call_is_told_in_full(r: agent::ToolRecordView)
    ensures
        ({
            let o = record_object(r);
            &&& json::get(o, "turn"@) == Some(JsonView::Unsigned(r.turn as u64))
            &&& json::get(o, "name"@) == Some(JsonView::Text(r.name))
            &&& json::get(o, "input"@) == Some(r.input)
            &&& json::get(o, "ok"@) == Some(JsonView::Bool(r.ok))
            &&& json::get(o, "result"@) == Some(JsonView::Text(r.result))
        }),
{
    reveal_strlit("turn");
    reveal_strlit("name");
    reveal_strlit("input");
    reveal_strlit("ok");
    reveal_strlit("result");
    assert("turn"@.len() == 4 && "turn"@[0] == 't');
    assert("name"@.len() == 4 && "name"@[0] == 'n');
    assert("input"@.len() == 5);
    assert("ok"@.len() == 2);
    assert("result"@.len() == 6);
    let f = record_object(r)->Object_0;
    assert(f[0].0 == "turn"@);
    assert(f[1].0 == "name"@);
    assert(f[2].0 == "input"@);
    assert(f[3].0 == "ok"@);
    assert(f[4].0 == "result"@);
    json::law_last_value_of_a_key_counts(f, "turn"@, 0);
    json::law_last_value_of_a_key_counts(f, "name"@, 1);
    json::law_last_value_of_a_key_counts(f, "input"@, 2);
    json::law_last_value_of_a_key_counts(f, "ok"@, 3);
    json::law_last_value_of_a_key_counts(f, "result"@, 4);
}

/// A run is told with its outcome, its turns and calls, its summary, the source it
/// hands back if any, and what it spent beside what the file would cost.
pub proof fn law_run_is_told_in_full(run: AgentRun, usd: JsonView)
    ensures
        ({
            let o = run_object(run, usd);
            &&& json::get(o, "ok"@) == Some(JsonView::Bool(run.ok))
            &&& json::get(o, "edited"@) == Some(JsonView::Bool(run.edited))
            &&& json::get(o, "turns"@) == Some(JsonView::Unsigned(run.turns as u64))
            &&& json::get(o, "tool_calls"@) == Some(JsonView::Array(Seq::new(run.tool_calls@.len(), |i: int| record_object(run.tool_calls@[i]@))))
            &&& json::get(o, "summary"@) == Some(JsonView::Text(run.summary@))
            &&& json::get(o, "source"@) == Some(match run.source {
                Some(s) => JsonView::Text(s@),
                None => JsonView::Null,
            })
            &&& json::get(o, "spend"@) == Some(spend_object(run.spend, usd))
            &&& json::get(o, "whole_file_tokens"@) == Some(JsonView::Unsigned(run.whole_file_tokens as u64))
        }),
{
    assert(agent::record_views(run.tool_calls@).map_values(
        |r: agent::ToolRecordView| record_object(r),
    ) =~= Seq::new(run.tool_calls@.len(), |i: int| record_object(run.tool_calls@[i]@)));
    reveal_strlit("ok");
    reveal_strlit("edited");
    reveal_strlit("turns");
    reveal_strlit("tool_calls");
    reveal_strlit("summary");
    reveal_strlit("source");
    reveal_strlit("spend");
    reveal_strlit("whole_file_tokens");
    assert("ok"@.len() == 2);
    assert("edited"@.len() == 6 && "edited"@[0] == 'e');
    assert("turns"@.len() == 5 && "turns"@[0] == 't');
    assert("tool_calls"@.len() == 10);
    assert("summary"@.len() == 7);
    assert("source"@.len() == 6 && "source"@[0] == 's');
    assert("spend"@.len() == 5 && "spend"@[0] == 's');
    assert("whole_file_tokens"@.len() == 17);
    let f = run_object(run, usd)->Object_0;
    assert(f[0].0 == "ok"@);
    assert(f[1].0 == "edited"@);
    assert(f[2].0 == "turns"@);
    assert(f[3].0 == "tool_calls"@);
    assert(f[4].0 == "summary"@);
    assert(f[5].0 == "source"@);
    assert(f[6].0 == "spend"@);
    assert(f[7].0 == "whole_file_tokens"@);
    json::law_last_value_of_a_key_counts(f, "ok"@, 0);
    json::law_last_value_of_a_key_counts(f, "edited"@, 1);
    json::law_last_value_of_a_key_counts(f, "turns"@, 2);
    json::law_last_value_of_a_key_counts(f, "tool_calls"@, 3);
    json::law_last_value_of_a_key_counts(f, "summary"@, 4);
    json::law_last_value_of_a_key_counts(f, "source"@, 5);
    json::law_last_value_of_a_key_counts(f, "spend"@, 6);
    json::law_last_value_of_a_key_counts(f, "whole_file_tokens"@, 7);
}

/// The whole-file arm is told with its outcome, what went wrong, the file it hands
/// back if any, what it spent, and how many lines it changed.
pub proof fn law_baseline_is_told_in_full(b: BaselineRun, usd: JsonView)
    ensures
        ({
            let o = baseline_object(b, usd);
            &&& json::get(o, "ok"@) == Some(JsonView::Bool(b.ok))
            &&& json::get(o, "edited"@) == Some(JsonView::Bool(b.edited))
            &&& json::get(o, "compiles"@) == Some(JsonView::Bool(b.compiles))
            &&& json::get(o, "tests_pass"@) == Some(JsonView::Bool(b.tests_pass))
            &&& json::get(o, "error"@) == Some(match b.error {
                Some(e) => JsonView::Text(e@),
                None => JsonView::Null,
            })
            &&& json::get(o, "source"@) == Some(match b.source {
                Some(s) => JsonView::Text(s@),
                None => JsonView::Null,
            })
            &&& json::get(o, "spend"@) == Some(spend_object(b.spend, usd))
            &&& json::get(o, "changed_lines"@) == Some(JsonView::Unsigned(b.changed_lines as u64))
        }),
{
    reveal_strlit("ok");
    reveal_strlit("edited");
    reveal_strlit("compiles");
    reveal_strlit("tests_pass");
    reveal_strlit("error");
    reveal_strlit("source");
    reveal_strlit("spend");
    reveal_strlit("changed_lines");
    assert("ok"@.len() == 2);
    assert("edited"@.len() == 6 && "edited"@[0] == 'e');
    assert("compiles"@.len() == 8);
    assert("tests_pass"@.len() == 10);
    assert("error"@.len() == 5 && "error"@[0] == 'e');
    assert("source"@.len() == 6 && "source"@[0] == 's');
    assert("spend"@.len() == 5 && "spend"@[0] == 's');
    assert("changed_lines"@.len() == 13);
    let f = baseline_object(b, usd)->Object_0;
    assert(f[0].0 == "ok"@);
    assert(f[1].0 == "edited"@);
    assert(f[2].0 == "compiles"@);
    assert(f[3].0 == "tests_pass"@);
    assert(f[4].0 == "error"@);
    assert(f[5].0 == "source"@);
    assert(f[6].0 == "spend"@);
    assert(f[7].0 == "changed_lines"@);
    json::law_last_value_of_a_key_counts(f, "ok"@, 0);
    json::law_last_value_of_a_key_counts(f, "edited"@, 1);
    json::law_last_value_of_a_key_counts(f, "compiles"@, 2);
    json::law_last_value_of_a_key_counts(f, "tests_pass"@, 3);
    json::law_last_value_of_a_key_counts(f, "error"@, 4);
    json::law_last_value_of_a_key_counts(f, "source"@, 5);
    json::law_last_value_of_a_key_counts(f, "spend"@, 6);
    json::law_last_value_of_a_key_counts(f, "changed_lines"@, 7);
}

/// An opened file is told with its name, the number of its buckets, and that of its
/// tests.
pub proof fn law_opened_file_is_told(file: Seq<char>, buckets: Seq<Bucket>, tests: usize)
    ensures
        ({
            let o = opened_object(file, buckets, tests);
            &&& json::get(o, "file"@) == Some(JsonView::Text(file))
            &&& json::get(o, "buckets"@) == Some(JsonView::Unsigned(user_buckets(buckets) as u64))
            &&& json::get(o, "tests"@) == Some(JsonView::Unsigned(tests as u64))
        }),
{
    reveal_strlit("file");
    reveal_strlit("buckets");
    reveal_strlit("tests");
    assert("file"@.len() == 4);
    assert("buckets"@.len() == 7);
    assert("tests"@.len() == 5);
    let f = opened_object(file, buckets, tests)->Object_0;
    assert(f[0].0 == "file"@);
    assert(f[1].0 == "buckets"@);
    assert(f[2].0 == "tests"@);
    json::law_last_value_of_a_key_counts(f, "file"@, 0);
    json::law_last_value_of_a_key_counts(f, "buckets"@, 1);
    json::law_last_value_of_a_key_counts(f, "tests"@, 2);
}

/// Past runs are told with the file that they are logged in.
pub proof fn law_past_runs_are_told(runs: Seq<JsonView>, log: Seq<char>)
    ensures
        ({
            let o = runs_object(runs, log);
            &&& json::get(o, "runs"@) == Some(JsonView::Array(runs))
            &&& json::get(o, "log"@) == Some(JsonView::Text(log))
        }),
{
    reveal_strlit("runs");
    reveal_strlit("log");
    assert("runs"@.len() == 4);
    assert("log"@.len() == 3);
    let f = runs_object(runs, log)->Object_0;
    assert(f[0].0 == "runs"@);
    assert(f[1].0 == "log"@);
    json::law_last_value_of_a_key_counts(f, "runs"@, 0);
    json::law_last_value_of_a_key_counts(f, "log"@, 1);
}

/// An error is told under its own key.
pub proof fn law_error_is_told(message: Seq<char>)
    ensures
        ({
            let o = error_object(message);
            &&& json::get(o, "error"@) == Some(JsonView::Text(message))
        }),
{
    reveal_strlit("error");
    assert("error"@.len() == 5);
    let f = error_object(message)->Object_0;
    assert(f[0].0 == "error"@);
    json::law_last_value_of_a_key_counts(f, "error"@, 0);
}

/// A run of the tests is told with how many there are, how many passed, and each of
/// them in order.
pub proof fn law_test_run_is_told_in_full(tests: Seq<TestOutcome>)
    ensures
        ({
            let o = tests_object(tests);
            &&& json::get(o, "total"@) == Some(JsonView::Unsigned(tests.len() as u64))
            &&& json::get(o, "passed"@) == Some(JsonView::Unsigned(gate::passing(tests) as u64))
            &&& json::get(o, "results"@) == Some(JsonView::Array(Seq::new(tests.len(), |i: int| test_object(tests[i]))))
        }),
{
    assert(tests.map_values(|t: TestOutcome| test_object(t)) =~= Seq::new(
        tests.len(),
        |i: int| test_object(tests[i]),
    ));
    reveal_strlit("total");
    reveal_strlit("passed");
    reveal_strlit("results");
    assert("total"@.len() == 5);
    assert("passed"@.len() == 6);
    assert("results"@.len() == 7);
    let f = tests_object(tests)->Object_0;
    assert(f[0].0 == "total"@);
    assert(f[1].0 == "passed"@);
    assert(f[2].0 == "results"@);
    json::law_last_value_of_a_key_counts(f, "total"@, 0);
    json::law_last_value_of_a_key_counts(f, "passed"@, 1);
    json::law_last_value_of_a_key_counts(f, "results"@, 2);
}

/// A search is told with its query and each match in order, under its own score.
pub proof fn law_search_is_told_in_full(
    query: Seq<char>,
    matches: Seq<MatchView>,
    scores: Seq<JsonView>,
)
    ensures
        ({
            let o = find_object(query, matches, scores);
            &&& json::get(o, "query"@) == Some(JsonView::Text(query))
            &&& json::get(o, "matches"@) == Some(JsonView::Array(Seq::new(matches.len(), |i: int| match_object(matches[i], scores[i]))))
        }),
{
    reveal_strlit("query");
    reveal_strlit("matches");
    assert("query"@.len() == 5);
    assert("matches"@.len() == 7);
    let f = find_object(query, matches, scores)->Object_0;
    assert(f[0].0 == "query"@);
    assert(f[1].0 == "matches"@);
    json::law_last_value_of_a_key_counts(f, "query"@, 0);
    json::law_last_value_of_a_key_counts(f, "matches"@, 1);
}

/// Measured rows are told in order, each with its own two ratios.
pub proof fn law_rows_are_told_in_order(rows: Seq<Row>, ratios: Seq<(Json, Json)>)
    ensures
        ({
            let o = rows_object(rows, ratios);
            &&& json::get(o, "rows"@) == Some(JsonView::Array(Seq::new(rows.len(), |i: int| row_object(rows[i], ratios[i].0@, ratios[i].1@))))
        }),
{
    reveal_strlit("rows");
    assert("rows"@.len() == 4);
    let f = rows_object(rows, ratios)->Object_0;
    assert(f[0].0 == "rows"@);
    json::law_last_value_of_a_key_counts(f, "rows"@, 0);
}

/// The costs of the buckets are told as rows.
pub proof fn law_costs_are_told(buckets: Seq<Bucket>, subs: Seq<(usize, Json)>, file: usize)
    ensures
        ({
            let o = costs_object(buckets, subs, file);
            &&& json::get(o, "rows"@) == Some(JsonView::Array(cost_objects(buckets, subs, file, buckets.len() as int)))
        }),
{
    reveal_strlit("rows");
    assert("rows"@.len() == 4);
    let f = costs_object(buckets, subs, file)->Object_0;
    assert(f[0].0 == "rows"@);
    json::law_last_value_of_a_key_counts(f, "rows"@, 0);
}

/// Both contexts are told for a bucket, that of the whole file first.
pub proof fn law_both_contexts_are_told(
    bucket: Seq<char>,
    file: Result<RenderedContext, String>,
    sub: Result<RenderedContext, String>,
)
    ensures
        ({
            let o = context_object(bucket, file, sub);
            &&& json::get(o, "bucket"@) == Some(JsonView::Text(bucket))
            &&& json::get(o, "arms"@) == Some(JsonView::Array(seq![arm_object(Strategy::WholeFile, file), arm_object(Strategy::Subgraph, sub)]))
        }),
{
    reveal_strlit("bucket");
    reveal_strlit("arms");
    assert("bucket"@.len() == 6);
    assert("arms"@.len() == 4);
    let f = context_object(bucket, file, sub)->Object_0;
    assert(f[0].0 == "bucket"@);
    assert(f[1].0 == "arms"@);
    json::law_last_value_of_a_key_counts(f, "bucket"@, 0);
    json::law_last_value_of_a_key_counts(f, "arms"@, 1);
}

/// A context that was built is told with its strategy, size and text; one that
/// was not, with the strategy that was asked for and the error.
pub proof fn law_context_is_told(strategy: Strategy, built: Result<RenderedContext, String>)
    ensures
        ({
            let o = arm_object(strategy, built);
            match built {
                Ok(c) => {
                    &&& json::get(o, "strategy"@) == Some(JsonView::Text(c.strategy.name()))
                    &&& json::get(o, "tokens"@) == Some(JsonView::Unsigned(c.tokens as u64))
                    &&& json::get(o, "text"@) == Some(JsonView::Text(c.text@))
                    &&& json::get(o, "error"@) is None
                },
                Err(e) => {
                    &&& json::get(o, "strategy"@) == Some(JsonView::Text(strategy.name()))
                    &&& json::get(o, "error"@) == Some(JsonView::Text(e@))
                    &&& json::get(o, "text"@) is None
                },
            }
        }),
{
    reveal_strlit("strategy");
    reveal_strlit("tokens");
    reveal_strlit("text");
    reveal_strlit("error");
    assert("strategy"@.len() == 8 && "tokens"@.len() == 6 && "text"@.len() == 4 && "error"@.len()
        == 5);
    let f = arm_object(strategy, built)->Object_0;
    assert(f[0].0 == "strategy"@);
    json::law_last_value_of_a_key_counts(f, "strategy"@, 0);
    json::law_last_value_of_a_key_counts(f, "error"@, 1);
    if built is Ok {
        assert(f[1].0 == "tokens"@ && f[2].0 == "text"@);
        json::law_last_value_of_a_key_counts(f, "tokens"@, 1);
        json::law_last_value_of_a_key_counts(f, "text"@, 2);
    } else {
        assert(f[1].0 == "error"@);
        json::law_last_value_of_a_key_counts(f, "text"@, 0);
    }
}

/// An experiment is told with its time, goal, model and file, and with each of
/// the arms that was run, and no other.
pub proof fn law_experiment_is_told_in_full(
    at: u64,
    goal: Seq<char>,
    model: Seq<char>,
    file: Seq<char>,
    file_tokens: usize,
    buckets: Option<JsonView>,
    whole_file: Option<JsonView>,
)
    ensures
        ({
            let o = experiment_object(at, goal, model, file, file_tokens, buckets, whole_file);
            &&& json::get(o, "at"@) == Some(JsonView::Unsigned(at))
            &&& json::get(o, "goal"@) == Some(JsonView::Text(goal))
            &&& json::get(o, "model"@) == Some(JsonView::Text(model))
            &&& json::get(o, "file"@) == Some(JsonView::Text(file))
            &&& json::get(o, "file_tokens"@) == Some(JsonView::Unsigned(file_tokens as u64))
            &&& json::get(o, "buckets"@) == buckets
            &&& json::get(o, "whole_file"@) == whole_file
        }),
{
    reveal_strlit("at");
    reveal_strlit("goal");
    reveal_strlit("model");
    reveal_strlit("file");
    reveal_strlit("file_tokens");
    reveal_strlit("buckets");
    reveal_strlit("whole_file");
    assert("at"@.len() == 2 && "goal"@.len() == 4 && "goal"@[0] == 'g' && "model"@.len() == 5
        && "file"@.len() == 4 && "file"@[0] == 'f');
    assert("file_tokens"@.len() == 11 && "buckets"@.len() == 7 && "whole_file"@.len() == 10);
    let f = experiment_object(
        at,
        goal,
        model,
        file,
        file_tokens,
        buckets,
        whole_file,
    )->Object_0;
    assert(f[0].0 == "at"@ && f[1].0 == "goal"@ && f[2].0 == "model"@ && f[3].0 == "file"@ && f[4].0
        == "file_tokens"@);
    assert(buckets is Some ==> f[5] == ("buckets"@, buckets->0));
    assert(whole_file is Some ==> f[f.len() - 1] == ("whole_file"@, whole_file->0));
    assert(f.len() == 5 + (if buckets is Some {
        1int
    } else {
        0int
    }) + (if whole_file is Some {
        1int
    } else {
        0int
    }));
    json::law_last_value_of_a_key_counts(f, "at"@, 0);
    json::law_last_value_of_a_key_counts(f, "goal"@, 1);
    json::law_last_value_of_a_key_counts(f, "model"@, 2);
    json::law_last_value_of_a_key_counts(f, "file"@, 3);
    json::law_last_value_of_a_key_counts(f, "file_tokens"@, 4);
    json::law_last_value_of_a_key_counts(f, "buckets"@, 5);
    json::law_last_value_of_a_key_counts(f, "whole_file"@, f.len() - 1);
}

/// The map has a line for each bucket of the user, in order, with its address,
/// label, contract and description.
pub proof fn law_map_has_a_line_for_each_bucket(a: Seq<Bucket>, b: Seq<Bucket>)
    ensures
        map_lines(Seq::empty()) == Seq::<char>::empty(),
        a.len() == 1 && !a[0].user ==> map_lines(a) == Seq::<char>::empty(),
        a.len() == 1 && a[0].user ==> map_lines(a) == a[0].address@ + " "@ + (match a[0].label {
            Some(l) => l@,
            None => Seq::empty(),
        }) + program::contract(a[0]) + " \""@ + a[0].desc@ + "\"\n"@,
        map_lines(a + b) == map_lines(a) + map_lines(b),
    decreases b.len(),
{
    if a.len() == 1 {
        let none = Seq::<char>::empty();
        assert(a.drop_last() =~= Seq::<Bucket>::empty());
        assert(map_lines(a.drop_last()) =~= none);
        assert(none + map_line(a[0]) =~= map_line(a[0]));
    }
    if b.len() == 0 {
        assert(a + b =~= a);
        assert(map_lines(a) + map_lines(b) =~= map_lines(a));
    } else {
        law_map_has_a_line_for_each_bucket(a, b.drop_last());
        assert((a + b).drop_last() =~= a + b.drop_last());
        assert((a + b).last() == b.last());
        assert(map_lines(a + b) =~= map_lines(a) + map_lines(b));
    }
}

/// The names of neighbours: of each address that is a bucket of the user its
/// label, or the address where it has none, in order.
pub proof fn law_neighbours_are_named_in_order(
    buckets: Seq<Bucket>,
    a: Seq<Seq<char>>,
    b: Seq<Seq<char>>,
)
    ensures
        user_names(buckets, Seq::empty()) == Seq::<Seq<char>>::empty(),
        a.len() == 1 ==> user_names(buckets, a) == match program::bucket_at(buckets, a[0]) {
            Some(bucket) => if bucket.user {
                match bucket.label {
                    Some(l) => seq![l@],
                    None => seq![a[0]],
                }
            } else {
                Seq::empty()
            },
            None => Seq::empty(),
        },
        user_names(buckets, a + b) == user_names(buckets, a) + user_names(buckets, b),
    decreases b.len(),
{
    if a.len() == 1 {
        let none = Seq::<Seq<char>>::empty();
        assert(a.drop_last() =~= none);
        assert(user_names(buckets, a.drop_last()) =~= none);
        if let Some(bucket) = program::bucket_at(buckets, a[0]) {
            let l = program::label_or(bucket, a[0]);
            assert(none.push(l) =~= seq![l]);
        }
    }
    if b.len() == 0 {
        assert(a + b =~= a);
        assert(user_names(buckets, a) + user_names(buckets, b) =~= user_names(buckets, a));
    } else {
        law_neighbours_are_named_in_order(buckets, a, b.drop_last());
        assert((a + b).drop_last() =~= a + b.drop_last());
        assert((a + b).last() == b.last());
        assert(user_names(buckets, a + b) =~= user_names(buckets, a) + user_names(buckets, b));
    }
}

/// The tests of a bucket are those with its label as their subject, in order.
pub proof fn law_tests_go_with_their_subject(
    a: Seq<TestCase>,
    b: Seq<TestCase>,
    label: Option<Seq<char>>,
)
    ensures
        tests_on(Seq::empty(), label) == Seq::<Seq<char>>::empty(),
        a.len() == 1 ==> tests_on(a, label) == if text::opt_text(a[0].subject) == label {
            seq![a[0].desc@]
        } else {
            Seq::empty()
        },
        tests_on(a + b, label) == tests_on(a, label) + tests_on(b, label),
    decreases b.len(),
{
    if a.len() == 1 {
        let none = Seq::<Seq<char>>::empty();
        assert(a.drop_last() =~= Seq::<TestCase>::empty());
        assert(tests_on(a.drop_last(), label) =~= none);
        assert(none.push(a[0].desc@) =~= seq![a[0].desc@]);
    }
    if b.len() == 0 {
        assert(a + b =~= a);
        assert(tests_on(a, label) + tests_on(b, label) =~= tests_on(a, label));
    } else {
        law_tests_go_with_their_subject(a, b.drop_last(), label);
        assert((a + b).drop_last() =~= a + b.drop_last());
        assert((a + b).last() == b.last());
        assert(tests_on(a + b, label) =~= tests_on(a, label) + tests_on(b, label));
    }
}

/// Every bucket of the user is told, in order and with its own measures, and its
/// cost likewise; no other is.
pub proof fn law_every_user_bucket_is_told(
    p: Program,
    tests: Seq<TestCase>,
    m: Seq<Measures>,
    subs: Seq<(usize, Json)>,
    file: usize,
    n: int,
)
    requires
        0 <= n,
    ensures
        bucket_objects(p, tests, m, 0).len() == 0,
        bucket_objects(p, tests, m, n + 1) == if p.buckets@[n].user {
            bucket_objects(p, tests, m, n).push(bucket_object(p, tests, p.buckets@[n], m[n]))
        } else {
            bucket_objects(p, tests, m, n)
        },
        cost_objects(p.buckets@, subs, file, 0).len() == 0,
        cost_objects(p.buckets@, subs, file, n + 1) == if p.buckets@[n].user {
            cost_objects(p.buckets@, subs, file, n).push(
                cost_object(p.buckets@[n], subs[n].0, file, subs[n].1@),
            )
        } else {
            cost_objects(p.buckets@, subs, file, n)
        },
        bucket_objects(p, tests, m, n + 1).len() - bucket_objects(p, tests, m, n).len()
            == user_buckets(p.buckets@.take(n + 1)) - user_buckets(p.buckets@.take(n)) || n
            >= p.buckets@.len(),
{
    if n < p.buckets@.len() {
        assert(p.buckets@.take(n + 1).drop_last() =~= p.buckets@.take(n));
    }
}

/// Runs that parse are told newest first; a line that does not parse is passed
/// over.
pub proof fn law_newest_run_comes_first(
    a: Seq<Result<JsonView, Seq<char>>>,
    b: Seq<Result<JsonView, Seq<char>>>,
)
    ensures
        newest_first(Seq::empty()) == Seq::<JsonView>::empty(),
        a.len() == 1 ==> newest_first(a) == match a[0] {
            Ok(v) => seq![v],
            Err(_) => Seq::empty(),
        },
        newest_first(a + b) == newest_first(b) + newest_first(a),
    decreases b.len(),
{
    if a.len() == 1 {
        let none = Seq::<JsonView>::empty();
        assert(a.drop_last() =~= Seq::<Result<JsonView, Seq<char>>>::empty());
        assert(newest_first(a.drop_last()) =~= none);
        if let Ok(v) = a[0] {
            assert(seq![v] + none =~= seq![v]);
        }
    }
    if b.len() == 0 {
        assert(a + b =~= a);
        assert(newest_first(b) + newest_first(a) =~= newest_first(a));
    } else {
        law_newest_run_comes_first(a, b.drop_last());
        assert((a + b).drop_last() =~= a + b.drop_last());
        assert((a + b).last() == b.last());
        assert(newest_first(a + b) =~= newest_first(b) + newest_first(a));
    }
}

/// A request to edit is read field by field: the goal, which must not be blank;
/// the ceiling in dollars where a number is given; the ceiling on requests, six
/// where none is given; and whether to write, which only `true` asks for.
pub proof fn law_edit_request_is_read(raw: JsonView, goal: Seq<char>, n: u64, usd: JsonView)
    ensures
        json::get(raw, "goal"@) == Some(JsonView::Text(goal)) && text::trim(goal).len() > 0 ==> (
        edit_asked(raw) matches Ok(q) && {
            &&& q.goal == goal
            &&& q.write <==> json::get(raw, "write"@) == Some(JsonView::Bool(true))
            &&& n <= u32::MAX && json::get(raw, "max_requests"@) == Some(JsonView::Unsigned(n))
                ==> q.max_requests == n
            &&& !(json::get(raw, "max_requests"@) matches Some(JsonView::Unsigned(_)))
                ==> q.max_requests == 6
            &&& json::get(raw, "max_usd"@) == Some(usd) && (usd is Unsigned || usd is Negative
                || usd is Fraction) ==> q.max_usd == Some(usd)
            &&& json::get(raw, "max_usd"@) is None ==> q.max_usd is None
            &&& json::get(raw, "max_usd"@) == Some(usd) && !(usd is Unsigned || usd is Negative
                || usd is Fraction) ==> q.max_usd is None
        }),
        json::get(raw, "goal"@) is None ==> edit_asked(raw) is Err,
        json::get(raw, "goal"@) == Some(JsonView::Text(goal)) && text::trim(goal).len() == 0
            ==> edit_asked(raw) is Err,
{
}

/// A request for an experiment is read field by field: the goal, trimmed and not
/// blank; the model, or the default; the ceiling; whether to write; and the arms,
/// both where none is named.
pub proof fn law_experiment_request_is_read(
    raw: JsonView,
    default_model: Seq<char>,
    goal: Seq<char>,
    model: Seq<char>,
    arms: Seq<char>,
    usd: JsonView,
)
    ensures
        json::get(raw, "goal"@) == Some(JsonView::Text(goal)) && text::trim(goal).len() > 0 ==> (
        experiment_asked(raw, default_model) matches Ok(q) && {
            &&& q.goal == text::trim(goal)
            &&& q.write <==> json::get(raw, "write"@) == Some(JsonView::Bool(true))
            &&& json::get(raw, "model"@) == Some(JsonView::Text(model)) ==> q.model == model
            &&& json::get(raw, "model"@) is None ==> q.model == default_model
            &&& json::get(raw, "max_usd"@) == Some(usd) && (usd is Unsigned || usd is Negative
                || usd is Fraction) ==> q.max_usd == Some(usd)
            &&& json::get(raw, "max_usd"@) is None ==> q.max_usd is None
            &&& json::get(raw, "max_usd"@) == Some(usd) && !(usd is Unsigned || usd is Negative
                || usd is Fraction) ==> q.max_usd is None
            &&& json::get(raw, "arms"@) == Some(JsonView::Text(arms)) ==> {
                &&& q.buckets <==> arms == "both"@ || arms == "buckets"@
                &&& q.whole_file <==> arms == "both"@ || arms == "file"@
            }
            &&& json::get(raw, "arms"@) is None ==> q.buckets && q.whole_file
        }),
        json::get(raw, "goal"@) is None ==> experiment_asked(raw, default_model) is Err,
        json::get(raw, "goal"@) == Some(JsonView::Text(goal)) && text::trim(goal).len() == 0
            ==> experiment_asked(raw, default_model) is Err,
{
    assert(text::trim(Seq::<char>::empty()) =~= Seq::<char>::empty());
}

/// An uploaded program is taken as it is, unless it is blank, under the last part
/// of its name; a name without a known extension gets one.
pub proof fn law_upload_is_taken_as_it_is(
    raw: JsonView,
    source: Seq<char>,
    name: Seq<char>,
    stem: Seq<char>,
)
    requires
        json::get(raw, "source"@) == Some(JsonView::Text(source)),
    ensures
        text::trim(source).len() == 0 ==> open_asked(raw) is Err,
        text::trim(source).len() > 0 ==> (open_asked(raw) matches Ok(q) && q.1 == source),
        text::trim(source).len() > 0 && json::get(raw, "name"@) == Some(JsonView::Text(name))
            && sandbox::file_name(name) == Some(stem) ==> ({
            let kept = open_asked(raw)->Ok_0.0;
            if text::ends_with(stem, ".bkt"@) || text::ends_with(stem, ".bucket"@) {
                kept == stem
            } else {
                kept == stem + ".bkt"@
            }
        }),
        text::trim(source).len() > 0 && json::get(raw, "name"@) is None ==> ({
            let kept = open_asked(raw)->Ok_0.0;
            kept == "uploaded.bkt"@
        }),
{
    let fallback = "uploaded.bkt"@;
    reveal_strlit("uploaded.bkt");
    reveal_strlit(".bkt");
    reveal_strlit(".");
    reveal_strlit("..");
    assert(fallback.subrange(fallback.len() - 4, fallback.len() as int) =~= ".bkt"@);
    assert(!fallback.contains('/'));
    sandbox::law_last_part_is_the_file_name(Seq::empty(), fallback);
}

/// The directory of a path is all of it up to its last slash, and an upload lands
/// in the workspace below that of the open file.
pub proof fn law_uploads_land_in_the_workspace(
    dir: Seq<char>,
    file: Seq<char>,
    name: Seq<char>,
)
    requires
        !file.contains('/'),
    ensures
        directory(dir.push('/') + file) == dir.push('/'),
        directory(file) == Seq::<char>::empty(),
        upload_location(dir.push('/') + file, name) == dir.push('/') + ".bucketcode/"@ + name,
{
    let t = dir.push('/') + file;
    text::law_after_last_is_the_last(t, '/', t.len() as int);
    let k = text::after_last(t, '/', t.len() as int);
    assert(t[dir.len() as int] == '/');
    if k > dir.len() + 1 {
        assert(t[k - 1] == file[k - 1 - dir.len() - 1]);
        assert(file.contains(file[k - 1 - dir.len() - 1]));
    }
    assert(t.take(k) =~= dir.push('/'));
    text::law_after_last_is_the_last(file, '/', file.len() as int);
    let j = text::after_last(file, '/', file.len() as int);
    if j > 0 {
        assert(file.contains(file[j - 1]));
    }
    assert(file.take(0) =~= Seq::<char>::empty());
}

/// The ceilings of a run from the UI are those that were given, with fixed
/// ceilings on tokens.
pub proof fn law_ui_budget_keeps_the_ceilings(max_requests: u32, max_usd: u64)
    ensures
        ui_budget(max_requests, max_usd).max_requests == max_requests,
        ui_budget(max_requests, max_usd).max_usd == max_usd,
        ui_budget(max_requests, max_usd).max_input_tokens == 200_000,
        ui_budget(max_requests, max_usd).max_output_tokens == 32_000,
{
}

/// The buckets that are counted are those of the user.
pub proof fn law_user_buckets_are_counted(buckets: Seq<Bucket>, b: Bucket)
    ensures
        user_buckets(Seq::empty()) == 0,
        user_buckets(buckets.push(b)) == user_buckets(buckets) + if b.user {
            1nat
        } else {
            0nat
        },
{
    assert(buckets.push(b).drop_last() =~= buckets);
}

/// What contracts say of requests is what they hold, field by field.
pub proof fn law_requests_are_read_as_they_are(e: EditRequest, x: ExperimentRequest)
    ensures
        e@.goal == e.goal@ && e@.max_requests == e.max_requests && e@.write == e.write,
        e@.max_usd == json::opt_tree(e.max_usd),
        x@.goal == x.goal@ && x@.model == x.model@ && x@.buckets == x.buckets && x@.whole_file
            == x.whole_file && x@.write == x.write,
        x@.max_usd == json::opt_tree(x.max_usd),
{
}

/// Lines that were parsed are read one by one, and outcomes as what they hold.
pub proof fn law_outcomes_are_read_as_they_are(
    v: Seq<Result<Json, String>>,
    i: int,
    e: EditRequest,
    x: ExperimentRequest,
    a: String,
    b: String,
)
    ensures
        parses(v).len() == v.len(),
        0 <= i < v.len() ==> match v[i] {
            Ok(j) => parses(v)[i] == Ok::<JsonView, Seq<char>>(j@),
            Err(s) => parses(v)[i] == Err::<JsonView, Seq<char>>(s@),
        },
        edit_outcome(Ok(e)) == Ok::<EditRequestView, Seq<char>>(e@),
        edit_outcome(Err(a)) == Err::<EditRequestView, Seq<char>>(a@),
        experiment_outcome(Ok(x)) == Ok::<ExperimentRequestView, Seq<char>>(x@),
        experiment_outcome(Err(a)) == Err::<ExperimentRequestView, Seq<char>>(a@),
        open_outcome(Ok((a, b))) == Ok::<(Seq<char>, Seq<char>), Seq<char>>((a@, b@)),
        open_outcome(Err(a)) == Err::<(Seq<char>, Seq<char>), Seq<char>>(a@),
{
}

/// What is said of a request that asks for nothing, word for word.
pub proof fn law_blank_requests_are_refused(raw: JsonView, default_model: Seq<char>, t: Seq<char>)
    requires
        text::trim(t).len() == 0,
    ensures
        json::get(raw, "goal"@) == Some(JsonView::Text(t)) ==> edit_asked(raw) == Err::<
            EditRequestView,
            Seq<char>,
        >("say what you want changed"@) && experiment_asked(raw, default_model) == Err::<
            ExperimentRequestView,
            Seq<char>,
        >("say what you want changed"@),
        json::get(raw, "source"@) == Some(JsonView::Text(t)) ==> open_asked(raw) == Err::<
            (Seq<char>, Seq<char>),
            Seq<char>,
        >("that file is empty"@),
{
}

} // verus!
