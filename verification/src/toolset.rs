//! What the agent is told, and the tools it is given.

use crate::json;
use crate::json::{Json, JsonView};
use crate::llm;
use crate::llm::{Tool, ToolView};
use crate::text;
use vstd::prelude::*;

verus! {

/// The system prompt of the agent.
pub const SYSTEM: &'static str = r#"You are a coding agent working on a bucketlang program.

# The model

A program is a graph of small typed functions called buckets. Each has a stable
address (`#b00000001`), a label, a typed contract, an English description, and a
one-expression body.

Identity, name, and meaning are separate on purpose: the address never changes,
so a description can be rewritten freely whenever behaviour changes.

# Descriptions are the interface, not documentation

1. A bucket is **found** by matching English against its description. One that
   does not say what it does cannot be located, however good its code is.
2. A description is what other buckets see **instead of** the body. When
   something else is edited, this bucket appears as its signature and
   description only.

So a stale description is worse than a missing one: it makes the bucket
unfindable, or findable for the wrong reason, and hands a future reader a
confident summary of code they cannot see. Update it on every edit, phrased as
someone would ask for the behaviour — "round a price down to whole cents", not
"helper" or "uses floor and mod".

# How to work

Start with `list_buckets` or `find_buckets`. The descriptions are usually enough
to decide what to change. Read a body only when a description genuinely is not
enough — each one you read spends the tokens the description exists to save.

Then call `edit_bucket`. It checks your edit before accepting it and hands back
the precise error if something is wrong. Fix and call it again.

# Syntax

- literals `1`, `true`, `"text"`; arithmetic `+ - * / **` (`+` joins two `Str`)
- comparison `== != < > <= >=`, logic `&& || !`
- `if cond then a else b`, `match x { None => …, Some(v) => … }`
- calls by label `double(21)`; pipe `x |> double`
- lists `[1, 2]`, records `{ x: 1 }`, field access `p.x`
- bindings `name = expr` on their own line; the last expression is the result
- cores: `print`, `error`, `pow`, `mod`, `floor`, `abs`, `to_json`, `from_json`,
  `list_len`, `list_nth`, `list_append`, `list_concat`, `list_remove`

Write only the body expression. Never close a brace you did not open — a body
that ends the bucket early is rejected, because it silently redefines its
neighbours.

# Limits

You can do all of this:

- `patch_bucket` — change part of a body. **Prefer this** whenever the body is
  more than a line or two: you emit only the fragment that changes, and output
  tokens cost five times what input does.
- `edit_bucket` — replace a whole body and description. For short bodies.
- `add_bucket` / `delete_bucket` — create or remove one.
- `set_signature` — rename, or change parameters and return type. Call sites are
  not rewritten for you; fix them in the same session.
- `set_tests` — replace a bucket's `@test` lines on their own.

When a change to behaviour is pinned by an existing test, change both **in one
call**: pass `tests` to `patch_bucket` alongside `find`/`replace`. Doing it in
two steps cannot work — new tests fail against the old body, and the old test
fails against the new body.

You cannot add or remove type aliases, modules, or imports. If a task needs one,
say so plainly and stop; do not reach for `write_file`, which bypasses every
check and will not help.

A task may turn out to need no change at all. If the code already does what was
asked, say so and stop. That is a correct outcome, not a failure.

When the task is done, stop calling tools and say briefly what you changed."#;

/// The system prompt of the whole-file arm.
pub const SYSTEM_BASELINE: &'static str = r#"You are editing a bucketlang program.

A bucket is a small typed function: `label(x: Num) -> Num "description" { body }`.
`@test label(input) == expected` lines pin behaviour. `@entry` marks the entry point.

Syntax: arithmetic `+ - * / **` (`+` also joins two Str), comparison `== != < > <= >=`,
logic `&& || !`, `if c then a else b`, `match x { None => …, Some(v) => … }`,
calls by label, pipe `x |> f`, lists `[1,2]`, records `{x: 1}`, field access `p.x`,
bindings `name = expr`, cores: print, error, pow, mod, floor, abs, to_json, from_json,
list_len, list_nth, list_append, list_concat, list_remove.

You will be given a whole file. Return the COMPLETE edited file and nothing else —
no explanation, no markdown fences. Keep every bucket you were not asked to change
exactly as it was."#;

// -------------------------------------------------------------- schema parts

/// The schema of a value of some type.
pub open spec fn kind(name: Seq<char>) -> JsonView {
    json::with_field(json::no_fields(), "type"@, JsonView::Text(name))
}

/// The schema of a value of some type, with a description.
pub open spec fn kind_with(name: Seq<char>, desc: Seq<char>) -> JsonView {
    json::with_field(kind(name), "description"@, JsonView::Text(desc))
}

/// The schema of a list, with a description.
pub open spec fn list_with(desc: Seq<char>, items: JsonView) -> JsonView {
    json::with_field(kind_with("array"@, desc), "items"@, items)
}

/// The schema of an object with those properties and no others, none of them
/// required.
pub open spec fn free(properties: JsonView) -> JsonView {
    json::with_field(
        json::with_field(kind("object"@), "properties"@, properties),
        "additionalProperties"@,
        JsonView::Bool(false),
    )
}

/// The schema of an object with those properties and no others.
pub open spec fn record(properties: JsonView, required: JsonView) -> JsonView {
    json::with_field(
        json::with_field(
            json::with_field(kind("object"@), "properties"@, properties),
            "required"@,
            required,
        ),
        "additionalProperties"@,
        JsonView::Bool(false),
    )
}

pub(crate) fn kind_of(name: &str) -> (r: Json)
    ensures
        r@ == kind(name@),
{
    Json::object().with_text("type", name)
}

pub(crate) fn kind_with_of(name: &str, desc: &str) -> (r: Json)
    ensures
        r@ == kind_with(name@, desc@),
{
    kind_of(name).with_text("description", desc)
}

fn list_with_of(desc: &str, items: Json) -> (r: Json)
    ensures
        r@ == list_with(desc@, items@),
{
    kind_with_of("array", desc).with("items", items)
}

fn free_of(properties: Json) -> (r: Json)
    ensures
        r@ == free(properties@),
{
    kind_of("object").with("properties", properties).with("additionalProperties", Json::Bool(false))
}

pub(crate) fn record_of(properties: Json, required: Json) -> (r: Json)
    ensures
        r@ == record(properties@, required@),
{
    kind_of("object").with("properties", properties).with("required", required).with(
        "additionalProperties",
        Json::Bool(false),
    )
}

// ----------------------------------------------------------------- the tools

pub const LIST_BUCKETS_DOC: &'static str =
    "List every bucket in the program: address, label, contract, and description. No bodies. Start here — the descriptions are usually enough to decide what to change, and this costs a fraction of reading the file.";

pub const FIND_BUCKETS_DOC: &'static str =
    "Search buckets by describing what you want in English. Matches against descriptions, labels, and parameter names, and returns a ranked shortlist. Use this when you know what behaviour you want but not which bucket has it.";

pub const READ_BUCKET_DOC: &'static str =
    "Read one bucket's full body, plus its callers and callees. Call this only when a description was not enough — every body you read costs tokens that the description was meant to save.";

pub const EDIT_BUCKET_DOC: &'static str =
    "Replace one bucket's body and description. The edit is checked before it is accepted: it must compile, it must change only this bucket, and this bucket's @test cases must still pass. If any check fails you get the exact error back and can try again. Always update the description to match what the code now does — it is how this bucket is found and how it is summarised to other buckets.";

pub const PATCH_BUCKET_DOC: &'static str =
    "Change part of a bucket's body by replacing an exact snippet, leaving the rest untouched. PREFER THIS over edit_bucket whenever the body is more than a line or two: you emit only the fragment that changes instead of retyping the whole body, and output tokens are the most expensive thing you spend. `find` must appear exactly once in the body. Same checks as edit_bucket.";

pub const DELETE_BUCKET_DOC: &'static str =
    "Remove a bucket. Refused if anything still calls it — fix the callers first. The program must still compile and every test must still pass.";

pub const SET_SIGNATURE_DOC: &'static str =
    "Rename a bucket and/or change its parameters and return type. Call sites are NOT rewritten for you, so change them in the same session or the program will not compile and the change will be refused.";

pub const SET_TESTS_DOC: &'static str =
    "Replace every @test on a bucket at once. This is how you change a test that pins old behaviour — give the full list you want the bucket to end up with, or an empty list to remove them all. Each entry is either an expected value or an expected error. The new tests must pass.";

pub const ADD_BUCKET_DOC: &'static str =
    "Create a new bucket. Give it a label, typed parameters, a return type, an English description, and a body. Checked before it is accepted: the program must still compile, no existing bucket may change, and every test must still pass. Use this when the task needs behaviour that does not exist yet — do not try to add one with write_file.";

pub const BUCKET_GRAPH_DOC: &'static str =
    "Show the call graph: which buckets call which. Use it to see what a change would affect before making it, or to find your way around an unfamiliar program. Structure only, no bodies — cheap.";

pub const RUN_TESTS_DOC: &'static str =
    "Run every @test in the program and report which passed. Use it to confirm the program is healthy, or to see what is already broken before you start.";

pub const READ_FILE_DOC: &'static str =
    "Read a whole file. EXPENSIVE — a file costs many times what list_buckets or read_bucket cost for the same job, and most of it will be irrelevant to your task. Use it only for files that are not bucketlang source, or when you have already tried the bucket tools and genuinely need the raw text.";

pub const WRITE_FILE_DOC: &'static str =
    "Write a whole file. UNCHECKED — unlike edit_bucket, this does not verify that the result compiles, that you changed only what you meant to, or that tests still pass. Never use it to change a bucket; use edit_bucket, which checks all three. Use it only to create a new file.";

pub const RUN_COMMAND_DOC: &'static str =
    "Run a command in the project directory. Pass the program and each argument as separate array entries — there is no shell, so pipes, redirects, and `&&` will not work and are rejected. Only a small allowlist runs (bkt, cargo, ls, cat, grep, rg, find, git status/diff/log, wc, head, tail, diff, echo). Prefer run_tests over `bkt run`; it is cheaper and reports failures better.";

/// The tool `list_buckets`.
pub open spec fn list_buckets_tool() -> ToolView {
    ToolView {
        name: "list_buckets"@,
        description: LIST_BUCKETS_DOC@,
        input_schema: free(json::no_fields()),
    }
}

fn list_buckets() -> (r: Tool)
    ensures
        r@ == list_buckets_tool(),
{
    Tool {
        name: "list_buckets".to_owned(),
        description: LIST_BUCKETS_DOC.to_owned(),
        input_schema: free_of(Json::object()),
    }
}

/// The tool `find_buckets`.
pub open spec fn find_buckets_tool() -> ToolView {
    ToolView {
        name: "find_buckets"@,
        description: FIND_BUCKETS_DOC@,
        input_schema: record(
            json::with_field(
                json::no_fields(),
                "query"@,
                kind_with("string"@, "What you are looking for, in plain English."@),
            ),
            json::with_item(json::no_items(), JsonView::Text("query"@)),
        ),
    }
}

fn find_buckets() -> (r: Tool)
    ensures
        r@ == find_buckets_tool(),
{
    Tool {
        name: "find_buckets".to_owned(),
        description: FIND_BUCKETS_DOC.to_owned(),
        input_schema: record_of(
            Json::object().with(
                "query",
                kind_with_of("string", "What you are looking for, in plain English."),
            ),
            Json::array().and(Json::text("query")),
        ),
    }
}

/// The tool `read_bucket`.
pub open spec fn read_bucket_tool() -> ToolView {
    ToolView {
        name: "read_bucket"@,
        description: READ_BUCKET_DOC@,
        input_schema: record(
            json::with_field(
                json::no_fields(),
                "address"@,
                kind_with("string"@, "Address like #b00000001, or the bucket's label."@),
            ),
            json::with_item(json::no_items(), JsonView::Text("address"@)),
        ),
    }
}

fn read_bucket() -> (r: Tool)
    ensures
        r@ == read_bucket_tool(),
{
    Tool {
        name: "read_bucket".to_owned(),
        description: READ_BUCKET_DOC.to_owned(),
        input_schema: record_of(
            Json::object().with(
                "address",
                kind_with_of("string", "Address like #b00000001, or the bucket's label."),
            ),
            Json::array().and(Json::text("address")),
        ),
    }
}

/// The tool `edit_bucket`.
pub open spec fn edit_bucket_tool() -> ToolView {
    ToolView {
        name: "edit_bucket"@,
        description: EDIT_BUCKET_DOC@,
        input_schema: record(
            json::with_field(
                json::with_field(
                    json::with_field(
                        json::no_fields(),
                        "address"@,
                        kind_with("string"@, "Address or label of the bucket to change."@),
                    ),
                    "body"@,
                    kind_with(
                        "string"@,
                        "The new body expression only — no label, contract, description, or braces."@,
                    ),
                ),
                "description"@,
                kind_with(
                    "string"@,
                    "What the bucket does after this edit, in plain English, phrased the way someone would ask for it."@,
                ),
            ),
            json::with_item(
                json::with_item(
                    json::with_item(json::no_items(), JsonView::Text("address"@)),
                    JsonView::Text("body"@),
                ),
                JsonView::Text("description"@),
            ),
        ),
    }
}

fn edit_bucket() -> (r: Tool)
    ensures
        r@ == edit_bucket_tool(),
{
    Tool {
        name: "edit_bucket".to_owned(),
        description: EDIT_BUCKET_DOC.to_owned(),
        input_schema: record_of(
            Json::object().with(
                "address",
                kind_with_of("string", "Address or label of the bucket to change."),
            ).with(
                "body",
                kind_with_of(
                    "string",
                    "The new body expression only — no label, contract, description, or braces.",
                ),
            ).with(
                "description",
                kind_with_of(
                    "string",
                    "What the bucket does after this edit, in plain English, phrased the way someone would ask for it.",
                ),
            ),
            Json::array().and(Json::text("address")).and(Json::text("body")).and(
                Json::text("description"),
            ),
        ),
    }
}

/// The tool `patch_bucket`.
pub open spec fn patch_bucket_tool() -> ToolView {
    ToolView {
        name: "patch_bucket"@,
        description: PATCH_BUCKET_DOC@,
        input_schema: record(
            json::with_field(
                json::with_field(
                    json::with_field(
                        json::with_field(
                            json::with_field(
                                json::no_fields(),
                                "address"@,
                                kind_with("string"@, "Address or label of the bucket."@),
                            ),
                            "find"@,
                            kind_with(
                                "string"@,
                                "Exact snippet to replace. Must occur exactly once in the body."@,
                            ),
                        ),
                        "replace"@,
                        kind_with("string"@, "What to put in its place."@),
                    ),
                    "description"@,
                    kind_with("string"@, "Optional. Update it when the behaviour changed."@),
                ),
                "tests"@,
                list_with(
                    "Optional. New @test set, applied in the SAME change as the body. Use this whenever an existing test pins the behaviour you are changing — updating the test separately cannot work, because either order fails."@,
                    record(
                        json::with_field(
                            json::with_field(
                                json::with_field(json::no_fields(), "call"@, kind("string"@)),
                                "expects"@,
                                kind("string"@),
                            ),
                            "expect_error"@,
                            kind("boolean"@),
                        ),
                        json::with_item(json::no_items(), JsonView::Text("call"@)),
                    ),
                ),
            ),
            json::with_item(
                json::with_item(
                    json::with_item(json::no_items(), JsonView::Text("address"@)),
                    JsonView::Text("find"@),
                ),
                JsonView::Text("replace"@),
            ),
        ),
    }
}

fn patch_bucket() -> (r: Tool)
    ensures
        r@ == patch_bucket_tool(),
{
    Tool {
        name: "patch_bucket".to_owned(),
        description: PATCH_BUCKET_DOC.to_owned(),
        input_schema: record_of(
            Json::object().with(
                "address",
                kind_with_of("string", "Address or label of the bucket."),
            ).with(
                "find",
                kind_with_of(
                    "string",
                    "Exact snippet to replace. Must occur exactly once in the body.",
                ),
            ).with(
                "replace",
                kind_with_of("string", "What to put in its place."),
            ).with(
                "description",
                kind_with_of("string", "Optional. Update it when the behaviour changed."),
            ).with(
                "tests",
                list_with_of(
                    "Optional. New @test set, applied in the SAME change as the body. Use this whenever an existing test pins the behaviour you are changing — updating the test separately cannot work, because either order fails.",
                    record_of(
                        Json::object().with("call", kind_of("string")).with(
                            "expects",
                            kind_of("string"),
                        ).with(
                            "expect_error",
                            kind_of("boolean"),
                        ),
                        Json::array().and(Json::text("call")),
                    ),
                ),
            ),
            Json::array().and(Json::text("address")).and(Json::text("find")).and(
                Json::text("replace"),
            ),
        ),
    }
}

/// The tool `delete_bucket`.
pub open spec fn delete_bucket_tool() -> ToolView {
    ToolView {
        name: "delete_bucket"@,
        description: DELETE_BUCKET_DOC@,
        input_schema: record(
            json::with_field(json::no_fields(), "address"@, kind("string"@)),
            json::with_item(json::no_items(), JsonView::Text("address"@)),
        ),
    }
}

fn delete_bucket() -> (r: Tool)
    ensures
        r@ == delete_bucket_tool(),
{
    Tool {
        name: "delete_bucket".to_owned(),
        description: DELETE_BUCKET_DOC.to_owned(),
        input_schema: record_of(
            Json::object().with("address", kind_of("string")),
            Json::array().and(Json::text("address")),
        ),
    }
}

/// The tool `set_signature`.
pub open spec fn set_signature_tool() -> ToolView {
    ToolView {
        name: "set_signature"@,
        description: SET_SIGNATURE_DOC@,
        input_schema: record(
            json::with_field(
                json::with_field(
                    json::with_field(
                        json::with_field(json::no_fields(), "address"@, kind("string"@)),
                        "label"@,
                        kind_with("string"@, "New name. Omit to keep the current one."@),
                    ),
                    "params"@,
                    list_with(
                        "Full replacement parameter list. Omit to keep the current one."@,
                        record(
                            json::with_field(
                                json::with_field(json::no_fields(), "name"@, kind("string"@)),
                                "type"@,
                                kind("string"@),
                            ),
                            json::with_item(
                                json::with_item(json::no_items(), JsonView::Text("name"@)),
                                JsonView::Text("type"@),
                            ),
                        ),
                    ),
                ),
                "returns"@,
                kind_with("string"@, "New return type. Omit to keep the current one."@),
            ),
            json::with_item(json::no_items(), JsonView::Text("address"@)),
        ),
    }
}

fn set_signature() -> (r: Tool)
    ensures
        r@ == set_signature_tool(),
{
    Tool {
        name: "set_signature".to_owned(),
        description: SET_SIGNATURE_DOC.to_owned(),
        input_schema: record_of(
            Json::object().with("address", kind_of("string")).with(
                "label",
                kind_with_of("string", "New name. Omit to keep the current one."),
            ).with(
                "params",
                list_with_of(
                    "Full replacement parameter list. Omit to keep the current one.",
                    record_of(
                        Json::object().with("name", kind_of("string")).with(
                            "type",
                            kind_of("string"),
                        ),
                        Json::array().and(Json::text("name")).and(Json::text("type")),
                    ),
                ),
            ).with(
                "returns",
                kind_with_of("string", "New return type. Omit to keep the current one."),
            ),
            Json::array().and(Json::text("address")),
        ),
    }
}

/// The tool `set_tests`.
pub open spec fn set_tests_tool() -> ToolView {
    ToolView {
        name: "set_tests"@,
        description: SET_TESTS_DOC@,
        input_schema: record(
            json::with_field(
                json::with_field(json::no_fields(), "address"@, kind("string"@)),
                "tests"@,
                list_with(
                    "The complete set of tests this bucket should have."@,
                    record(
                        json::with_field(
                            json::with_field(
                                json::with_field(
                                    json::no_fields(),
                                    "call"@,
                                    kind_with("string"@, "The call, e.g. double(3)"@),
                                ),
                                "expects"@,
                                kind_with(
                                    "string"@,
                                    "Expected value, e.g. 6. Omit when expect_error is true."@,
                                ),
                            ),
                            "expect_error"@,
                            kind_with("boolean"@, "True if the call should fail."@),
                        ),
                        json::with_item(json::no_items(), JsonView::Text("call"@)),
                    ),
                ),
            ),
            json::with_item(
                json::with_item(json::no_items(), JsonView::Text("address"@)),
                JsonView::Text("tests"@),
            ),
        ),
    }
}

fn set_tests() -> (r: Tool)
    ensures
        r@ == set_tests_tool(),
{
    Tool {
        name: "set_tests".to_owned(),
        description: SET_TESTS_DOC.to_owned(),
        input_schema: record_of(
            Json::object().with("address", kind_of("string")).with(
                "tests",
                list_with_of(
                    "The complete set of tests this bucket should have.",
                    record_of(
                        Json::object().with(
                            "call",
                            kind_with_of("string", "The call, e.g. double(3)"),
                        ).with(
                            "expects",
                            kind_with_of(
                                "string",
                                "Expected value, e.g. 6. Omit when expect_error is true.",
                            ),
                        ).with(
                            "expect_error",
                            kind_with_of("boolean", "True if the call should fail."),
                        ),
                        Json::array().and(Json::text("call")),
                    ),
                ),
            ),
            Json::array().and(Json::text("address")).and(Json::text("tests")),
        ),
    }
}

/// The tool `add_bucket`.
pub open spec fn add_bucket_tool() -> ToolView {
    ToolView {
        name: "add_bucket"@,
        description: ADD_BUCKET_DOC@,
        input_schema: record(
            json::with_field(
                json::with_field(
                    json::with_field(
                        json::with_field(
                            json::with_field(
                                json::no_fields(),
                                "label"@,
                                kind_with(
                                    "string"@,
                                    "Name, e.g. quadruple. Must not already exist."@,
                                ),
                            ),
                            "params"@,
                            list_with(
                                "Parameters in order. Empty for none."@,
                                record(
                                    json::with_field(
                                        json::with_field(
                                            json::no_fields(),
                                            "name"@,
                                            kind("string"@),
                                        ),
                                        "type"@,
                                        kind_with(
                                            "string"@,
                                            "Num, Bool, Str, List[Num], or a declared type"@,
                                        ),
                                    ),
                                    json::with_item(
                                        json::with_item(json::no_items(), JsonView::Text("name"@)),
                                        JsonView::Text("type"@),
                                    ),
                                ),
                            ),
                        ),
                        "returns"@,
                        kind_with("string"@, "Return type, e.g. Num."@),
                    ),
                    "description"@,
                    kind_with(
                        "string"@,
                        "What it does, in plain English, phrased the way someone would ask for it."@,
                    ),
                ),
                "body"@,
                kind_with(
                    "string"@,
                    "The body expression only — no label, contract, description, or braces."@,
                ),
            ),
            json::with_item(
                json::with_item(
                    json::with_item(
                        json::with_item(
                            json::with_item(json::no_items(), JsonView::Text("label"@)),
                            JsonView::Text("params"@),
                        ),
                        JsonView::Text("returns"@),
                    ),
                    JsonView::Text("description"@),
                ),
                JsonView::Text("body"@),
            ),
        ),
    }
}

fn add_bucket() -> (r: Tool)
    ensures
        r@ == add_bucket_tool(),
{
    Tool {
        name: "add_bucket".to_owned(),
        description: ADD_BUCKET_DOC.to_owned(),
        input_schema: record_of(
            Json::object().with(
                "label",
                kind_with_of("string", "Name, e.g. quadruple. Must not already exist."),
            ).with(
                "params",
                list_with_of(
                    "Parameters in order. Empty for none.",
                    record_of(
                        Json::object().with("name", kind_of("string")).with(
                            "type",
                            kind_with_of("string", "Num, Bool, Str, List[Num], or a declared type"),
                        ),
                        Json::array().and(Json::text("name")).and(Json::text("type")),
                    ),
                ),
            ).with(
                "returns",
                kind_with_of("string", "Return type, e.g. Num."),
            ).with(
                "description",
                kind_with_of(
                    "string",
                    "What it does, in plain English, phrased the way someone would ask for it.",
                ),
            ).with(
                "body",
                kind_with_of(
                    "string",
                    "The body expression only — no label, contract, description, or braces.",
                ),
            ),
            Json::array().and(Json::text("label")).and(Json::text("params")).and(
                Json::text("returns"),
            ).and(
                Json::text("description"),
            ).and(
                Json::text("body"),
            ),
        ),
    }
}

/// The tool `bucket_graph`.
pub open spec fn bucket_graph_tool() -> ToolView {
    ToolView {
        name: "bucket_graph"@,
        description: BUCKET_GRAPH_DOC@,
        input_schema: free(
            json::with_field(
                json::no_fields(),
                "address"@,
                kind_with("string"@, "Optional. Limit to one bucket's callers and callees."@),
            ),
        ),
    }
}

fn bucket_graph() -> (r: Tool)
    ensures
        r@ == bucket_graph_tool(),
{
    Tool {
        name: "bucket_graph".to_owned(),
        description: BUCKET_GRAPH_DOC.to_owned(),
        input_schema: free_of(
            Json::object().with(
                "address",
                kind_with_of("string", "Optional. Limit to one bucket's callers and callees."),
            ),
        ),
    }
}

/// The tool `run_tests`.
pub open spec fn run_tests_tool() -> ToolView {
    ToolView {
        name: "run_tests"@,
        description: RUN_TESTS_DOC@,
        input_schema: free(json::no_fields()),
    }
}

fn run_tests() -> (r: Tool)
    ensures
        r@ == run_tests_tool(),
{
    Tool {
        name: "run_tests".to_owned(),
        description: RUN_TESTS_DOC.to_owned(),
        input_schema: free_of(Json::object()),
    }
}

/// The tool `read_file`.
pub open spec fn read_file_tool() -> ToolView {
    ToolView {
        name: "read_file"@,
        description: READ_FILE_DOC@,
        input_schema: record(
            json::with_field(
                json::no_fields(),
                "path"@,
                kind_with("string"@, "Path relative to the project root."@),
            ),
            json::with_item(json::no_items(), JsonView::Text("path"@)),
        ),
    }
}

fn read_file() -> (r: Tool)
    ensures
        r@ == read_file_tool(),
{
    Tool {
        name: "read_file".to_owned(),
        description: READ_FILE_DOC.to_owned(),
        input_schema: record_of(
            Json::object().with(
                "path",
                kind_with_of("string", "Path relative to the project root."),
            ),
            Json::array().and(Json::text("path")),
        ),
    }
}

/// The tool `write_file`.
pub open spec fn write_file_tool() -> ToolView {
    ToolView {
        name: "write_file"@,
        description: WRITE_FILE_DOC@,
        input_schema: record(
            json::with_field(
                json::with_field(
                    json::no_fields(),
                    "path"@,
                    kind_with("string"@, "Path relative to the project root."@),
                ),
                "contents"@,
                kind("string"@),
            ),
            json::with_item(
                json::with_item(json::no_items(), JsonView::Text("path"@)),
                JsonView::Text("contents"@),
            ),
        ),
    }
}

fn write_file() -> (r: Tool)
    ensures
        r@ == write_file_tool(),
{
    Tool {
        name: "write_file".to_owned(),
        description: WRITE_FILE_DOC.to_owned(),
        input_schema: record_of(
            Json::object().with(
                "path",
                kind_with_of("string", "Path relative to the project root."),
            ).with(
                "contents",
                kind_of("string"),
            ),
            Json::array().and(Json::text("path")).and(Json::text("contents")),
        ),
    }
}

/// The tool `run_command`.
pub open spec fn run_command_tool() -> ToolView {
    ToolView {
        name: "run_command"@,
        description: RUN_COMMAND_DOC@,
        input_schema: record(
            json::with_field(
                json::no_fields(),
                "argv"@,
                list_with("Program and arguments, e.g. [\"cargo\", \"test\"]."@, kind("string"@)),
            ),
            json::with_item(json::no_items(), JsonView::Text("argv"@)),
        ),
    }
}

fn run_command() -> (r: Tool)
    ensures
        r@ == run_command_tool(),
{
    Tool {
        name: "run_command".to_owned(),
        description: RUN_COMMAND_DOC.to_owned(),
        input_schema: record_of(
            Json::object().with(
                "argv",
                list_with_of(
                    "Program and arguments, e.g. [\"cargo\", \"test\"].",
                    kind_of("string"),
                ),
            ),
            Json::array().and(Json::text("argv")),
        ),
    }
}

/// The tools the model can call.
pub open spec fn catalogue() -> Seq<ToolView> {
    seq![
        list_buckets_tool(),
        find_buckets_tool(),
        read_bucket_tool(),
        edit_bucket_tool(),
        patch_bucket_tool(),
        delete_bucket_tool(),
        set_signature_tool(),
        set_tests_tool(),
        add_bucket_tool(),
        bucket_graph_tool(),
        run_tests_tool(),
        read_file_tool(),
        write_file_tool(),
        run_command_tool(),
    ]
}

/// The tools the model can call.
///
/// Deliberately small. Each one is a *bucketlang* operation first: every change
/// to a bucket goes through the gates. The generic fallbacks at the end are
/// there because some tasks genuinely need them. Their descriptions say what
/// they cost, because the bucket tools exist precisely to avoid that cost and a
/// model reaches for whatever looks simplest.
pub fn tools() -> (r: Vec<Tool>)
    ensures
        llm::tool_views(r@) == catalogue(),
{
    let mut v: Vec<Tool> = Vec::new();
    v.push(list_buckets());
    v.push(find_buckets());
    v.push(read_bucket());
    v.push(edit_bucket());
    v.push(patch_bucket());
    v.push(delete_bucket());
    v.push(set_signature());
    v.push(set_tests());
    v.push(add_bucket());
    v.push(bucket_graph());
    v.push(run_tests());
    v.push(read_file());
    v.push(write_file());
    v.push(run_command());
    assert(llm::tool_views(v@) =~= catalogue());
    v
}

/// What the agent is told on every turn: the system prompt, and the description
/// and the schema of every tool.
pub open spec fn fixed_texts(tools: Seq<ToolView>) -> Seq<Seq<char>>
    decreases tools.len(),
{
    if tools.len() == 0 {
        seq![SYSTEM@]
    } else {
        fixed_texts(tools.drop_last()).push(tools.last().description).push(
            json::json_text(tools.last().input_schema),
        )
    }
}

/// What the agent is told on every turn, to be measured.
pub fn overhead_texts() -> (r: Vec<String>)
    ensures
        text::texts(r@) == fixed_texts(catalogue()),
{
    let all = tools();
    let ghost views = catalogue();
    let mut out: Vec<String> = Vec::new();
    out.push(SYSTEM.to_owned());
    let mut i: usize = 0;
    assert(views.take(0) =~= Seq::<ToolView>::empty());
    assert(text::texts(out@) =~= seq![SYSTEM@]);
    while i < all.len()
        invariant
            i <= all@.len(),
            views == llm::tool_views(all@),
            text::texts(out@) == fixed_texts(views.take(i as int)),
        decreases all@.len() - i,
    {
        assert(views.take(i + 1).drop_last() =~= views.take(i as int));
        assert(views.take(i + 1).last() == all@[i as int]@);
        let ghost before = text::texts(out@);
        out.push(all[i].description.clone());
        out.push(json::text_of(&all[i].input_schema));
        assert(text::texts(out@) =~= before.push(all@[i as int].description@).push(
            json::json_text(all@[i as int].input_schema@),
        ));
        i = i + 1;
    }
    assert(views.take(all@.len() as int) =~= views);
    out
}

// ---------------------------------------------------------------------- laws

proof fn lemma_typed(v: JsonView, name: Seq<char>)
    requires
        v matches JsonView::Object(f) && f.len() > 0 && f[0] == ("type"@, JsonView::Text(name)) && (
        f.len() > 1 ==> f[1].0 == "description"@) && (f.len() > 2 ==> f[2].0 == "items"@) && f.len()
            <= 3,
    ensures
        json::get(v, "type"@) == Some(JsonView::Text(name)),
{
    reveal_strlit("type");
    reveal_strlit("description");
    reveal_strlit("items");
    assert("type"@.len() == 4 && "description"@.len() == 11 && "items"@.len() == 5);
    json::law_last_value_of_a_key_counts(v->Object_0, "type"@, 0);
}

/// The schema of an object takes the properties it is given and no others, and
/// asks for those that are required.
pub proof fn law_schema_takes_its_properties(properties: JsonView, required: JsonView)
    ensures
        ({
            let o = record(properties, required);
            &&& json::get(o, "type"@) == Some(JsonView::Text("object"@))
            &&& json::get(o, "properties"@) == Some(properties)
            &&& json::get(o, "required"@) == Some(required)
            &&& json::get(o, "additionalProperties"@) == Some(JsonView::Bool(false))
        }),
        ({
            let o = free(properties);
            &&& json::get(o, "type"@) == Some(JsonView::Text("object"@))
            &&& json::get(o, "properties"@) == Some(properties)
            &&& json::get(o, "required"@) is None
            &&& json::get(o, "additionalProperties"@) == Some(JsonView::Bool(false))
        }),
{
    reveal_strlit("type");
    reveal_strlit("properties");
    reveal_strlit("required");
    reveal_strlit("additionalProperties");
    assert("type"@.len() == 4 && "properties"@.len() == 10 && "required"@.len() == 8
        && "additionalProperties"@.len() == 20);
    let f = record(properties, required)->Object_0;
    assert(f[0].0 == "type"@ && f[1].0 == "properties"@ && f[2].0 == "required"@ && f[3].0
        == "additionalProperties"@);
    json::law_last_value_of_a_key_counts(f, "type"@, 0);
    json::law_last_value_of_a_key_counts(f, "properties"@, 1);
    json::law_last_value_of_a_key_counts(f, "required"@, 2);
    json::law_last_value_of_a_key_counts(f, "additionalProperties"@, 3);
    let g = free(properties)->Object_0;
    assert(g[0].0 == "type"@ && g[1].0 == "properties"@ && g[2].0 == "additionalProperties"@);
    json::law_last_value_of_a_key_counts(g, "type"@, 0);
    json::law_last_value_of_a_key_counts(g, "properties"@, 1);
    json::law_last_value_of_a_key_counts(g, "required"@, 0);
    json::law_last_value_of_a_key_counts(g, "additionalProperties"@, 2);
}

/// A search takes a query and needs it.
pub proof fn law_find_buckets_takes_its_arguments()
    ensures
        find_buckets_tool().name == "find_buckets"@,
        ({
            let schema = find_buckets_tool().input_schema;
            &&& json::get(schema, "type"@) == Some(JsonView::Text("object"@))
            &&& json::get(schema, "additionalProperties"@) == Some(JsonView::Bool(false))
            &&& json::get(schema, "required"@) == Some(json::text_array(seq!["query"@]))
            &&& json::get(schema, "properties"@) matches Some(p) && {
                &&& json::get(p, "query"@) matches Some(v) && json::get(v, "type"@) == Some(
                    JsonView::Text("string"@),
                )
            }
        }),
{
    let schema = find_buckets_tool().input_schema;
    let properties = schema->Object_0[1].1;
    let required = schema->Object_0[2].1;
    law_schema_takes_its_properties(properties, required);
    assert(required->Array_0 =~= json::text_array(seq!["query"@])->Array_0);
    let f = properties->Object_0;
    reveal_strlit("query");
    assert("query"@.len() == 5);
    assert(f[0].0 == "query"@);
    json::law_last_value_of_a_key_counts(f, "query"@, 0);
    lemma_typed(f[0].1, "string"@);
}

/// Reading takes the address of a bucket and needs it.
pub proof fn law_read_bucket_takes_its_arguments()
    ensures
        read_bucket_tool().name == "read_bucket"@,
        ({
            let schema = read_bucket_tool().input_schema;
            &&& json::get(schema, "type"@) == Some(JsonView::Text("object"@))
            &&& json::get(schema, "additionalProperties"@) == Some(JsonView::Bool(false))
            &&& json::get(schema, "required"@) == Some(json::text_array(seq!["address"@]))
            &&& json::get(schema, "properties"@) matches Some(p) && {
                &&& json::get(p, "address"@) matches Some(v) && json::get(v, "type"@) == Some(
                    JsonView::Text("string"@),
                )
            }
        }),
{
    let schema = read_bucket_tool().input_schema;
    let properties = schema->Object_0[1].1;
    let required = schema->Object_0[2].1;
    law_schema_takes_its_properties(properties, required);
    assert(required->Array_0 =~= json::text_array(seq!["address"@])->Array_0);
    let f = properties->Object_0;
    reveal_strlit("address");
    assert("address"@.len() == 7);
    assert(f[0].0 == "address"@);
    json::law_last_value_of_a_key_counts(f, "address"@, 0);
    lemma_typed(f[0].1, "string"@);
}

/// An edit takes an address, a body and a description, and needs all three.
pub proof fn law_edit_bucket_takes_its_arguments()
    ensures
        edit_bucket_tool().name == "edit_bucket"@,
        ({
            let schema = edit_bucket_tool().input_schema;
            &&& json::get(schema, "type"@) == Some(JsonView::Text("object"@))
            &&& json::get(schema, "additionalProperties"@) == Some(JsonView::Bool(false))
            &&& json::get(schema, "required"@) == Some(json::text_array(seq!["address"@, "body"@, "description"@]))
            &&& json::get(schema, "properties"@) matches Some(p) && {
                &&& json::get(p, "address"@) matches Some(v) && json::get(v, "type"@) == Some(
                    JsonView::Text("string"@),
                )
                &&& json::get(p, "body"@) matches Some(v) && json::get(v, "type"@) == Some(
                    JsonView::Text("string"@),
                )
                &&& json::get(p, "description"@) matches Some(v) && json::get(v, "type"@) == Some(
                    JsonView::Text("string"@),
                )
            }
        }),
{
    let schema = edit_bucket_tool().input_schema;
    let properties = schema->Object_0[1].1;
    let required = schema->Object_0[2].1;
    law_schema_takes_its_properties(properties, required);
    assert(required->Array_0 =~= json::text_array(seq!["address"@, "body"@, "description"@])->Array_0);
    let f = properties->Object_0;
    reveal_strlit("address");
    reveal_strlit("body");
    reveal_strlit("description");
    assert("address"@.len() == 7);
    assert("body"@.len() == 4);
    assert("description"@.len() == 11);
    assert(f[0].0 == "address"@);
    assert(f[1].0 == "body"@);
    assert(f[2].0 == "description"@);
    json::law_last_value_of_a_key_counts(f, "address"@, 0);
    lemma_typed(f[0].1, "string"@);
    json::law_last_value_of_a_key_counts(f, "body"@, 1);
    lemma_typed(f[1].1, "string"@);
    json::law_last_value_of_a_key_counts(f, "description"@, 2);
    lemma_typed(f[2].1, "string"@);
}

/// A patch takes an address, a snippet and what to put in its place, and needs all
/// three; a description and tests are optional.
pub proof fn law_patch_bucket_takes_its_arguments()
    ensures
        patch_bucket_tool().name == "patch_bucket"@,
        ({
            let schema = patch_bucket_tool().input_schema;
            &&& json::get(schema, "type"@) == Some(JsonView::Text("object"@))
            &&& json::get(schema, "additionalProperties"@) == Some(JsonView::Bool(false))
            &&& json::get(schema, "required"@) == Some(json::text_array(seq!["address"@, "find"@, "replace"@]))
            &&& json::get(schema, "properties"@) matches Some(p) && {
                &&& json::get(p, "address"@) matches Some(v) && json::get(v, "type"@) == Some(
                    JsonView::Text("string"@),
                )
                &&& json::get(p, "find"@) matches Some(v) && json::get(v, "type"@) == Some(
                    JsonView::Text("string"@),
                )
                &&& json::get(p, "replace"@) matches Some(v) && json::get(v, "type"@) == Some(
                    JsonView::Text("string"@),
                )
                &&& json::get(p, "description"@) matches Some(v) && json::get(v, "type"@) == Some(
                    JsonView::Text("string"@),
                )
                &&& json::get(p, "tests"@) matches Some(v) && json::get(v, "type"@) == Some(
                    JsonView::Text("array"@),
                )
            }
        }),
{
    let schema = patch_bucket_tool().input_schema;
    let properties = schema->Object_0[1].1;
    let required = schema->Object_0[2].1;
    law_schema_takes_its_properties(properties, required);
    assert(required->Array_0 =~= json::text_array(seq!["address"@, "find"@, "replace"@])->Array_0);
    let f = properties->Object_0;
    reveal_strlit("address");
    reveal_strlit("find");
    reveal_strlit("replace");
    reveal_strlit("description");
    reveal_strlit("tests");
    assert("address"@.len() == 7 && "address"@[0] == 'a');
    assert("find"@.len() == 4);
    assert("replace"@.len() == 7 && "replace"@[0] == 'r');
    assert("description"@.len() == 11);
    assert("tests"@.len() == 5);
    assert(f[0].0 == "address"@);
    assert(f[1].0 == "find"@);
    assert(f[2].0 == "replace"@);
    assert(f[3].0 == "description"@);
    assert(f[4].0 == "tests"@);
    json::law_last_value_of_a_key_counts(f, "address"@, 0);
    lemma_typed(f[0].1, "string"@);
    json::law_last_value_of_a_key_counts(f, "find"@, 1);
    lemma_typed(f[1].1, "string"@);
    json::law_last_value_of_a_key_counts(f, "replace"@, 2);
    lemma_typed(f[2].1, "string"@);
    json::law_last_value_of_a_key_counts(f, "description"@, 3);
    lemma_typed(f[3].1, "string"@);
    json::law_last_value_of_a_key_counts(f, "tests"@, 4);
    lemma_typed(f[4].1, "array"@);
}

/// A deletion takes the address of a bucket and needs it.
pub proof fn law_delete_bucket_takes_its_arguments()
    ensures
        delete_bucket_tool().name == "delete_bucket"@,
        ({
            let schema = delete_bucket_tool().input_schema;
            &&& json::get(schema, "type"@) == Some(JsonView::Text("object"@))
            &&& json::get(schema, "additionalProperties"@) == Some(JsonView::Bool(false))
            &&& json::get(schema, "required"@) == Some(json::text_array(seq!["address"@]))
            &&& json::get(schema, "properties"@) matches Some(p) && {
                &&& json::get(p, "address"@) matches Some(v) && json::get(v, "type"@) == Some(
                    JsonView::Text("string"@),
                )
            }
        }),
{
    let schema = delete_bucket_tool().input_schema;
    let properties = schema->Object_0[1].1;
    let required = schema->Object_0[2].1;
    law_schema_takes_its_properties(properties, required);
    assert(required->Array_0 =~= json::text_array(seq!["address"@])->Array_0);
    let f = properties->Object_0;
    reveal_strlit("address");
    assert("address"@.len() == 7);
    assert(f[0].0 == "address"@);
    json::law_last_value_of_a_key_counts(f, "address"@, 0);
    lemma_typed(f[0].1, "string"@);
}

/// A new signature takes an address, which it needs, and a label, parameters and a
/// return type, each of which may be left out.
pub proof fn law_set_signature_takes_its_arguments()
    ensures
        set_signature_tool().name == "set_signature"@,
        ({
            let schema = set_signature_tool().input_schema;
            &&& json::get(schema, "type"@) == Some(JsonView::Text("object"@))
            &&& json::get(schema, "additionalProperties"@) == Some(JsonView::Bool(false))
            &&& json::get(schema, "required"@) == Some(json::text_array(seq!["address"@]))
            &&& json::get(schema, "properties"@) matches Some(p) && {
                &&& json::get(p, "address"@) matches Some(v) && json::get(v, "type"@) == Some(
                    JsonView::Text("string"@),
                )
                &&& json::get(p, "label"@) matches Some(v) && json::get(v, "type"@) == Some(
                    JsonView::Text("string"@),
                )
                &&& json::get(p, "params"@) matches Some(v) && json::get(v, "type"@) == Some(
                    JsonView::Text("array"@),
                )
                &&& json::get(p, "returns"@) matches Some(v) && json::get(v, "type"@) == Some(
                    JsonView::Text("string"@),
                )
            }
        }),
{
    let schema = set_signature_tool().input_schema;
    let properties = schema->Object_0[1].1;
    let required = schema->Object_0[2].1;
    law_schema_takes_its_properties(properties, required);
    assert(required->Array_0 =~= json::text_array(seq!["address"@])->Array_0);
    let f = properties->Object_0;
    reveal_strlit("address");
    reveal_strlit("label");
    reveal_strlit("params");
    reveal_strlit("returns");
    assert("address"@.len() == 7 && "address"@[0] == 'a');
    assert("label"@.len() == 5);
    assert("params"@.len() == 6);
    assert("returns"@.len() == 7 && "returns"@[0] == 'r');
    assert(f[0].0 == "address"@);
    assert(f[1].0 == "label"@);
    assert(f[2].0 == "params"@);
    assert(f[3].0 == "returns"@);
    json::law_last_value_of_a_key_counts(f, "address"@, 0);
    lemma_typed(f[0].1, "string"@);
    json::law_last_value_of_a_key_counts(f, "label"@, 1);
    lemma_typed(f[1].1, "string"@);
    json::law_last_value_of_a_key_counts(f, "params"@, 2);
    lemma_typed(f[2].1, "array"@);
    json::law_last_value_of_a_key_counts(f, "returns"@, 3);
    lemma_typed(f[3].1, "string"@);
}

/// Setting tests takes an address and the tests, and needs both.
pub proof fn law_set_tests_takes_its_arguments()
    ensures
        set_tests_tool().name == "set_tests"@,
        ({
            let schema = set_tests_tool().input_schema;
            &&& json::get(schema, "type"@) == Some(JsonView::Text("object"@))
            &&& json::get(schema, "additionalProperties"@) == Some(JsonView::Bool(false))
            &&& json::get(schema, "required"@) == Some(json::text_array(seq!["address"@, "tests"@]))
            &&& json::get(schema, "properties"@) matches Some(p) && {
                &&& json::get(p, "address"@) matches Some(v) && json::get(v, "type"@) == Some(
                    JsonView::Text("string"@),
                )
                &&& json::get(p, "tests"@) matches Some(v) && json::get(v, "type"@) == Some(
                    JsonView::Text("array"@),
                )
            }
        }),
{
    let schema = set_tests_tool().input_schema;
    let properties = schema->Object_0[1].1;
    let required = schema->Object_0[2].1;
    law_schema_takes_its_properties(properties, required);
    assert(required->Array_0 =~= json::text_array(seq!["address"@, "tests"@])->Array_0);
    let f = properties->Object_0;
    reveal_strlit("address");
    reveal_strlit("tests");
    assert("address"@.len() == 7);
    assert("tests"@.len() == 5);
    assert(f[0].0 == "address"@);
    assert(f[1].0 == "tests"@);
    json::law_last_value_of_a_key_counts(f, "address"@, 0);
    lemma_typed(f[0].1, "string"@);
    json::law_last_value_of_a_key_counts(f, "tests"@, 1);
    lemma_typed(f[1].1, "array"@);
}

/// An addition takes a label, parameters, a return type, a description and a body,
/// and needs all of them.
pub proof fn law_add_bucket_takes_its_arguments()
    ensures
        add_bucket_tool().name == "add_bucket"@,
        ({
            let schema = add_bucket_tool().input_schema;
            &&& json::get(schema, "type"@) == Some(JsonView::Text("object"@))
            &&& json::get(schema, "additionalProperties"@) == Some(JsonView::Bool(false))
            &&& json::get(schema, "required"@) == Some(json::text_array(seq!["label"@, "params"@, "returns"@, "description"@, "body"@]))
            &&& json::get(schema, "properties"@) matches Some(p) && {
                &&& json::get(p, "label"@) matches Some(v) && json::get(v, "type"@) == Some(
                    JsonView::Text("string"@),
                )
                &&& json::get(p, "params"@) matches Some(v) && json::get(v, "type"@) == Some(
                    JsonView::Text("array"@),
                )
                &&& json::get(p, "returns"@) matches Some(v) && json::get(v, "type"@) == Some(
                    JsonView::Text("string"@),
                )
                &&& json::get(p, "description"@) matches Some(v) && json::get(v, "type"@) == Some(
                    JsonView::Text("string"@),
                )
                &&& json::get(p, "body"@) matches Some(v) && json::get(v, "type"@) == Some(
                    JsonView::Text("string"@),
                )
            }
        }),
{
    let schema = add_bucket_tool().input_schema;
    let properties = schema->Object_0[1].1;
    let required = schema->Object_0[2].1;
    law_schema_takes_its_properties(properties, required);
    assert(required->Array_0 =~= json::text_array(seq!["label"@, "params"@, "returns"@, "description"@, "body"@])->Array_0);
    let f = properties->Object_0;
    reveal_strlit("label");
    reveal_strlit("params");
    reveal_strlit("returns");
    reveal_strlit("description");
    reveal_strlit("body");
    assert("label"@.len() == 5);
    assert("params"@.len() == 6);
    assert("returns"@.len() == 7);
    assert("description"@.len() == 11);
    assert("body"@.len() == 4);
    assert(f[0].0 == "label"@);
    assert(f[1].0 == "params"@);
    assert(f[2].0 == "returns"@);
    assert(f[3].0 == "description"@);
    assert(f[4].0 == "body"@);
    json::law_last_value_of_a_key_counts(f, "label"@, 0);
    lemma_typed(f[0].1, "string"@);
    json::law_last_value_of_a_key_counts(f, "params"@, 1);
    lemma_typed(f[1].1, "array"@);
    json::law_last_value_of_a_key_counts(f, "returns"@, 2);
    lemma_typed(f[2].1, "string"@);
    json::law_last_value_of_a_key_counts(f, "description"@, 3);
    lemma_typed(f[3].1, "string"@);
    json::law_last_value_of_a_key_counts(f, "body"@, 4);
    lemma_typed(f[4].1, "string"@);
}

/// The graph takes an address, which may be left out.
pub proof fn law_bucket_graph_takes_its_arguments()
    ensures
        bucket_graph_tool().name == "bucket_graph"@,
        ({
            let schema = bucket_graph_tool().input_schema;
            &&& json::get(schema, "type"@) == Some(JsonView::Text("object"@))
            &&& json::get(schema, "additionalProperties"@) == Some(JsonView::Bool(false))
            &&& json::get(schema, "required"@) is None
            &&& json::get(schema, "properties"@) matches Some(p) && {
                &&& json::get(p, "address"@) matches Some(v) && json::get(v, "type"@) == Some(
                    JsonView::Text("string"@),
                )
            }
        }),
{
    let schema = bucket_graph_tool().input_schema;
    let properties = schema->Object_0[1].1;
    law_schema_takes_its_properties(properties, JsonView::Null);
    let f = properties->Object_0;
    reveal_strlit("address");
    assert("address"@.len() == 7);
    assert(f[0].0 == "address"@);
    json::law_last_value_of_a_key_counts(f, "address"@, 0);
    lemma_typed(f[0].1, "string"@);
}

/// Reading a file takes its path and needs it.
pub proof fn law_read_file_takes_its_arguments()
    ensures
        read_file_tool().name == "read_file"@,
        ({
            let schema = read_file_tool().input_schema;
            &&& json::get(schema, "type"@) == Some(JsonView::Text("object"@))
            &&& json::get(schema, "additionalProperties"@) == Some(JsonView::Bool(false))
            &&& json::get(schema, "required"@) == Some(json::text_array(seq!["path"@]))
            &&& json::get(schema, "properties"@) matches Some(p) && {
                &&& json::get(p, "path"@) matches Some(v) && json::get(v, "type"@) == Some(
                    JsonView::Text("string"@),
                )
            }
        }),
{
    let schema = read_file_tool().input_schema;
    let properties = schema->Object_0[1].1;
    let required = schema->Object_0[2].1;
    law_schema_takes_its_properties(properties, required);
    assert(required->Array_0 =~= json::text_array(seq!["path"@])->Array_0);
    let f = properties->Object_0;
    reveal_strlit("path");
    assert("path"@.len() == 4);
    assert(f[0].0 == "path"@);
    json::law_last_value_of_a_key_counts(f, "path"@, 0);
    lemma_typed(f[0].1, "string"@);
}

/// Writing a file takes its path and its contents, and needs both.
pub proof fn law_write_file_takes_its_arguments()
    ensures
        write_file_tool().name == "write_file"@,
        ({
            let schema = write_file_tool().input_schema;
            &&& json::get(schema, "type"@) == Some(JsonView::Text("object"@))
            &&& json::get(schema, "additionalProperties"@) == Some(JsonView::Bool(false))
            &&& json::get(schema, "required"@) == Some(json::text_array(seq!["path"@, "contents"@]))
            &&& json::get(schema, "properties"@) matches Some(p) && {
                &&& json::get(p, "path"@) matches Some(v) && json::get(v, "type"@) == Some(
                    JsonView::Text("string"@),
                )
                &&& json::get(p, "contents"@) matches Some(v) && json::get(v, "type"@) == Some(
                    JsonView::Text("string"@),
                )
            }
        }),
{
    let schema = write_file_tool().input_schema;
    let properties = schema->Object_0[1].1;
    let required = schema->Object_0[2].1;
    law_schema_takes_its_properties(properties, required);
    assert(required->Array_0 =~= json::text_array(seq!["path"@, "contents"@])->Array_0);
    let f = properties->Object_0;
    reveal_strlit("path");
    reveal_strlit("contents");
    assert("path"@.len() == 4);
    assert("contents"@.len() == 8);
    assert(f[0].0 == "path"@);
    assert(f[1].0 == "contents"@);
    json::law_last_value_of_a_key_counts(f, "path"@, 0);
    lemma_typed(f[0].1, "string"@);
    json::law_last_value_of_a_key_counts(f, "contents"@, 1);
    lemma_typed(f[1].1, "string"@);
}

/// Running a command takes its words as a list and needs them.
pub proof fn law_run_command_takes_its_arguments()
    ensures
        run_command_tool().name == "run_command"@,
        ({
            let schema = run_command_tool().input_schema;
            &&& json::get(schema, "type"@) == Some(JsonView::Text("object"@))
            &&& json::get(schema, "additionalProperties"@) == Some(JsonView::Bool(false))
            &&& json::get(schema, "required"@) == Some(json::text_array(seq!["argv"@]))
            &&& json::get(schema, "properties"@) matches Some(p) && {
                &&& json::get(p, "argv"@) matches Some(v) && json::get(v, "type"@) == Some(
                    JsonView::Text("array"@),
                )
            }
        }),
{
    let schema = run_command_tool().input_schema;
    let properties = schema->Object_0[1].1;
    let required = schema->Object_0[2].1;
    law_schema_takes_its_properties(properties, required);
    assert(required->Array_0 =~= json::text_array(seq!["argv"@])->Array_0);
    let f = properties->Object_0;
    reveal_strlit("argv");
    assert("argv"@.len() == 4);
    assert(f[0].0 == "argv"@);
    json::law_last_value_of_a_key_counts(f, "argv"@, 0);
    lemma_typed(f[0].1, "array"@);
}

proof fn lemma_items(v: JsonView, desc: Seq<char>, item: JsonView)
    requires
        v == list_with(desc, item),
    ensures
        json::get(v, "items"@) == Some(item),
{
    reveal_strlit("items");
    let f = v->Object_0;
    assert(f[2].0 == "items"@);
    json::law_last_value_of_a_key_counts(f, "items"@, 2);
}

/// A test of a patch has a call, which it needs, and a value or an error to expect.
pub proof fn law_patch_bucket_takes_tests()
    ensures
        ({
            let schema = patch_bucket_tool().input_schema;
            let item = json::get(json::get(json::get(schema, "properties"@)->0, "tests"@)->0, "items"@)->0;
            let p = json::get(item, "properties"@)->0;
            &&& json::get(item, "type"@) == Some(JsonView::Text("object"@))
            &&& json::get(item, "additionalProperties"@) == Some(JsonView::Bool(false))
            &&& json::get(item, "required"@) == Some(json::text_array(seq!["call"@]))
            &&& json::get(p, "call"@) matches Some(v) && json::get(v, "type"@) == Some(
                JsonView::Text("string"@),
            )
            &&& json::get(p, "expects"@) matches Some(v) && json::get(v, "type"@) == Some(
                JsonView::Text("string"@),
            )
            &&& json::get(p, "expect_error"@) matches Some(v) && json::get(v, "type"@) == Some(
                JsonView::Text("boolean"@),
            )
        }),
{
    law_patch_bucket_takes_its_arguments();
    let schema = patch_bucket_tool().input_schema;
    let properties = schema->Object_0[1].1;
    let required = schema->Object_0[2].1;
    law_schema_takes_its_properties(properties, required);
    let fields = properties->Object_0;
    let list = fields[4].1;
    reveal_strlit("address");
    reveal_strlit("find");
    reveal_strlit("replace");
    reveal_strlit("description");
    reveal_strlit("tests");
    assert("address"@.len() == 7 && "address"@[0] == 'a');
    assert("find"@.len() == 4);
    assert("replace"@.len() == 7 && "replace"@[0] == 'r');
    assert("description"@.len() == 11);
    assert("tests"@.len() == 5);
    assert(fields[0].0 == "address"@);
    assert(fields[1].0 == "find"@);
    assert(fields[2].0 == "replace"@);
    assert(fields[3].0 == "description"@);
    assert(fields[4].0 == "tests"@);
    json::law_last_value_of_a_key_counts(fields, "tests"@, 4);
    let item = list->Object_0[2].1;
    lemma_items(list, list->Object_0[1].1->Text_0, item);
    let inner = item->Object_0[1].1;
    let needed = item->Object_0[2].1;
    law_schema_takes_its_properties(inner, needed);
    assert(needed->Array_0 =~= json::text_array(seq!["call"@])->Array_0);
    let f = inner->Object_0;
    reveal_strlit("call");
    reveal_strlit("expects");
    reveal_strlit("expect_error");
    assert("call"@.len() == 4);
    assert("expects"@.len() == 7);
    assert("expect_error"@.len() == 12);
    assert(f[0].0 == "call"@);
    assert(f[1].0 == "expects"@);
    assert(f[2].0 == "expect_error"@);
    json::law_last_value_of_a_key_counts(f, "call"@, 0);
    lemma_typed(f[0].1, "string"@);
    json::law_last_value_of_a_key_counts(f, "expects"@, 1);
    lemma_typed(f[1].1, "string"@);
    json::law_last_value_of_a_key_counts(f, "expect_error"@, 2);
    lemma_typed(f[2].1, "boolean"@);
}

/// A test of a bucket has a call, which it needs, and a value or an error to expect.
pub proof fn law_set_tests_takes_tests()
    ensures
        ({
            let schema = set_tests_tool().input_schema;
            let item = json::get(json::get(json::get(schema, "properties"@)->0, "tests"@)->0, "items"@)->0;
            let p = json::get(item, "properties"@)->0;
            &&& json::get(item, "type"@) == Some(JsonView::Text("object"@))
            &&& json::get(item, "additionalProperties"@) == Some(JsonView::Bool(false))
            &&& json::get(item, "required"@) == Some(json::text_array(seq!["call"@]))
            &&& json::get(p, "call"@) matches Some(v) && json::get(v, "type"@) == Some(
                JsonView::Text("string"@),
            )
            &&& json::get(p, "expects"@) matches Some(v) && json::get(v, "type"@) == Some(
                JsonView::Text("string"@),
            )
            &&& json::get(p, "expect_error"@) matches Some(v) && json::get(v, "type"@) == Some(
                JsonView::Text("boolean"@),
            )
        }),
{
    law_set_tests_takes_its_arguments();
    let schema = set_tests_tool().input_schema;
    let properties = schema->Object_0[1].1;
    let required = schema->Object_0[2].1;
    law_schema_takes_its_properties(properties, required);
    let fields = properties->Object_0;
    let list = fields[1].1;
    reveal_strlit("address");
    reveal_strlit("tests");
    assert("address"@.len() == 7);
    assert("tests"@.len() == 5);
    assert(fields[0].0 == "address"@);
    assert(fields[1].0 == "tests"@);
    json::law_last_value_of_a_key_counts(fields, "tests"@, 1);
    let item = list->Object_0[2].1;
    lemma_items(list, list->Object_0[1].1->Text_0, item);
    let inner = item->Object_0[1].1;
    let needed = item->Object_0[2].1;
    law_schema_takes_its_properties(inner, needed);
    assert(needed->Array_0 =~= json::text_array(seq!["call"@])->Array_0);
    let f = inner->Object_0;
    reveal_strlit("call");
    reveal_strlit("expects");
    reveal_strlit("expect_error");
    assert("call"@.len() == 4);
    assert("expects"@.len() == 7);
    assert("expect_error"@.len() == 12);
    assert(f[0].0 == "call"@);
    assert(f[1].0 == "expects"@);
    assert(f[2].0 == "expect_error"@);
    json::law_last_value_of_a_key_counts(f, "call"@, 0);
    lemma_typed(f[0].1, "string"@);
    json::law_last_value_of_a_key_counts(f, "expects"@, 1);
    lemma_typed(f[1].1, "string"@);
    json::law_last_value_of_a_key_counts(f, "expect_error"@, 2);
    lemma_typed(f[2].1, "boolean"@);
}

/// A parameter of a new signature has a name and a type, and needs both.
pub proof fn law_set_signature_takes_parameters()
    ensures
        ({
            let schema = set_signature_tool().input_schema;
            let item = json::get(json::get(json::get(schema, "properties"@)->0, "params"@)->0, "items"@)->0;
            let p = json::get(item, "properties"@)->0;
            &&& json::get(item, "type"@) == Some(JsonView::Text("object"@))
            &&& json::get(item, "additionalProperties"@) == Some(JsonView::Bool(false))
            &&& json::get(item, "required"@) == Some(json::text_array(seq!["name"@, "type"@]))
            &&& json::get(p, "name"@) matches Some(v) && json::get(v, "type"@) == Some(
                JsonView::Text("string"@),
            )
            &&& json::get(p, "type"@) matches Some(v) && json::get(v, "type"@) == Some(
                JsonView::Text("string"@),
            )
        }),
{
    law_set_signature_takes_its_arguments();
    let schema = set_signature_tool().input_schema;
    let properties = schema->Object_0[1].1;
    let required = schema->Object_0[2].1;
    law_schema_takes_its_properties(properties, required);
    let fields = properties->Object_0;
    let list = fields[2].1;
    reveal_strlit("address");
    reveal_strlit("label");
    reveal_strlit("params");
    reveal_strlit("returns");
    assert("address"@.len() == 7 && "address"@[0] == 'a');
    assert("label"@.len() == 5);
    assert("params"@.len() == 6);
    assert("returns"@.len() == 7 && "returns"@[0] == 'r');
    assert(fields[0].0 == "address"@);
    assert(fields[1].0 == "label"@);
    assert(fields[2].0 == "params"@);
    assert(fields[3].0 == "returns"@);
    json::law_last_value_of_a_key_counts(fields, "params"@, 2);
    let item = list->Object_0[2].1;
    lemma_items(list, list->Object_0[1].1->Text_0, item);
    let inner = item->Object_0[1].1;
    let needed = item->Object_0[2].1;
    law_schema_takes_its_properties(inner, needed);
    assert(needed->Array_0 =~= json::text_array(seq!["name"@, "type"@])->Array_0);
    let f = inner->Object_0;
    reveal_strlit("name");
    reveal_strlit("type");
    assert("name"@.len() == 4 && "name"@[0] == 'n');
    assert("type"@.len() == 4 && "type"@[0] == 't');
    assert(f[0].0 == "name"@);
    assert(f[1].0 == "type"@);
    json::law_last_value_of_a_key_counts(f, "name"@, 0);
    lemma_typed(f[0].1, "string"@);
    json::law_last_value_of_a_key_counts(f, "type"@, 1);
    lemma_typed(f[1].1, "string"@);
}

/// A parameter of an added bucket has a name and a type, and needs both.
pub proof fn law_add_bucket_takes_parameters()
    ensures
        ({
            let schema = add_bucket_tool().input_schema;
            let item = json::get(json::get(json::get(schema, "properties"@)->0, "params"@)->0, "items"@)->0;
            let p = json::get(item, "properties"@)->0;
            &&& json::get(item, "type"@) == Some(JsonView::Text("object"@))
            &&& json::get(item, "additionalProperties"@) == Some(JsonView::Bool(false))
            &&& json::get(item, "required"@) == Some(json::text_array(seq!["name"@, "type"@]))
            &&& json::get(p, "name"@) matches Some(v) && json::get(v, "type"@) == Some(
                JsonView::Text("string"@),
            )
            &&& json::get(p, "type"@) matches Some(v) && json::get(v, "type"@) == Some(
                JsonView::Text("string"@),
            )
        }),
{
    law_add_bucket_takes_its_arguments();
    let schema = add_bucket_tool().input_schema;
    let properties = schema->Object_0[1].1;
    let required = schema->Object_0[2].1;
    law_schema_takes_its_properties(properties, required);
    let fields = properties->Object_0;
    let list = fields[1].1;
    reveal_strlit("label");
    reveal_strlit("params");
    reveal_strlit("returns");
    reveal_strlit("description");
    reveal_strlit("body");
    assert("label"@.len() == 5);
    assert("params"@.len() == 6);
    assert("returns"@.len() == 7);
    assert("description"@.len() == 11);
    assert("body"@.len() == 4);
    assert(fields[0].0 == "label"@);
    assert(fields[1].0 == "params"@);
    assert(fields[2].0 == "returns"@);
    assert(fields[3].0 == "description"@);
    assert(fields[4].0 == "body"@);
    json::law_last_value_of_a_key_counts(fields, "params"@, 1);
    let item = list->Object_0[2].1;
    lemma_items(list, list->Object_0[1].1->Text_0, item);
    let inner = item->Object_0[1].1;
    let needed = item->Object_0[2].1;
    law_schema_takes_its_properties(inner, needed);
    assert(needed->Array_0 =~= json::text_array(seq!["name"@, "type"@])->Array_0);
    let f = inner->Object_0;
    reveal_strlit("name");
    reveal_strlit("type");
    assert("name"@.len() == 4 && "name"@[0] == 'n');
    assert("type"@.len() == 4 && "type"@[0] == 't');
    assert(f[0].0 == "name"@);
    assert(f[1].0 == "type"@);
    json::law_last_value_of_a_key_counts(f, "name"@, 0);
    lemma_typed(f[0].1, "string"@);
    json::law_last_value_of_a_key_counts(f, "type"@, 1);
    lemma_typed(f[1].1, "string"@);
}

/// The words of a command are texts.
pub proof fn law_run_command_takes_texts()
    ensures
        ({
            let schema = run_command_tool().input_schema;
            let item = json::get(
                json::get(json::get(schema, "properties"@)->0, "argv"@)->0,
                "items"@,
            );
            item matches Some(v) && json::get(v, "type"@) == Some(JsonView::Text("string"@))
        }),
{
    let schema = run_command_tool().input_schema;
    let properties = schema->Object_0[1].1;
    law_schema_takes_its_properties(properties, schema->Object_0[2].1);
    let f = properties->Object_0;
    assert(f[0].0 == "argv"@);
    json::law_last_value_of_a_key_counts(f, "argv"@, 0);
    let list = f[0].1;
    let item = list->Object_0[2].1;
    lemma_items(list, list->Object_0[1].1->Text_0, item);
    lemma_typed(item, "string"@);
}

/// What is sent on every turn is the system prompt and, of each tool in order,
/// its description and its schema.
pub proof fn law_every_turn_pays_for_the_tools(tools: Seq<ToolView>, t: ToolView)
    ensures
        fixed_texts(Seq::empty()) == seq![SYSTEM@],
        fixed_texts(tools.push(t)) == fixed_texts(tools) + seq![
            t.description,
            json::json_text(t.input_schema),
        ],
{
    assert(tools.push(t).drop_last() =~= tools);
    assert(fixed_texts(tools.push(t)) =~= fixed_texts(tools) + seq![
        t.description,
        json::json_text(t.input_schema),
    ]);
}

/// Fourteen tools are offered; of them listing the buckets and running the tests
/// take no argument.
pub proof fn law_catalogue_offers_each_tool()
    ensures
        catalogue().len() == 14,
        catalogue().contains(list_buckets_tool()) && list_buckets_tool().name == "list_buckets"@,
        catalogue().contains(find_buckets_tool()),
        catalogue().contains(read_bucket_tool()),
        catalogue().contains(edit_bucket_tool()),
        catalogue().contains(patch_bucket_tool()),
        catalogue().contains(delete_bucket_tool()),
        catalogue().contains(set_signature_tool()),
        catalogue().contains(set_tests_tool()),
        catalogue().contains(add_bucket_tool()),
        catalogue().contains(bucket_graph_tool()),
        catalogue().contains(run_tests_tool()) && run_tests_tool().name == "run_tests"@,
        catalogue().contains(read_file_tool()),
        catalogue().contains(write_file_tool()),
        catalogue().contains(run_command_tool()),
        list_buckets_tool().input_schema == free(JsonView::Object(Seq::empty())),
        run_tests_tool().input_schema == free(JsonView::Object(Seq::empty())),
{
    let c = catalogue();
    assert(c[0] == list_buckets_tool() && c[1] == find_buckets_tool() && c[2]
        == read_bucket_tool() && c[3] == edit_bucket_tool() && c[4] == patch_bucket_tool() && c[5]
        == delete_bucket_tool() && c[6] == set_signature_tool() && c[7] == set_tests_tool()
        && c[8] == add_bucket_tool() && c[9] == bucket_graph_tool() && c[10] == run_tests_tool()
        && c[11] == read_file_tool() && c[12] == write_file_tool() && c[13]
        == run_command_tool());
}

} // verus!
