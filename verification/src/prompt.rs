//! What the model is told, and the shape it must answer in.
//!
//! Two things here are load-bearing for the whole design.
//!
//! **Descriptions are the index.** A bucket is found by matching English
//! against its description, and a neighbour is *summarised by* its description
//! instead of having its body sent. Both uses rest on the same bet: English is
//! sufficient to know what a bucket does. So the prompt spends real space on
//! how to write one, and the reply schema makes it a required field.
//!
//! **The scratchpad is separate from the answer.** The model gets an explicit
//! place to reason and leave notes, so that thinking does not end up in the
//! bucket body or the description. Notes are carried into the next attempt on a
//! retry, which is what makes the second try informed rather than a re-roll.

use crate::json;
use crate::json::{Json, JsonView};
use crate::text;
use crate::toolset;
use vstd::prelude::*;

verus! {

/// The stable system prompt.
///
/// Identical on every request in a session, and sent as a cacheable block, so
/// after the first call it bills at cache-read rates.
pub const SYSTEM: &'static str = r#"You are editing a program written in bucketlang.

# The model

A program is a graph of small typed functions called buckets. Every bucket has:

- an **address** like `#b00000001` — stable identity; call edges point at it
- a **label** like `double` — sugar for humans reading the code
- a **description** like `"multiply by two"` — what it does, in English
- a **contract** like `(x: Num) -> Num` — its types
- a **body** — one expression

Identity, name, and meaning are deliberately separate. The address never
changes, so the description is free to be rewritten whenever the code changes.

# Why the description matters more than it looks

The description is not documentation. It is the interface.

1. It is how a bucket is **found**. Retrieval matches an English request against
   descriptions. A bucket whose description does not say what it does cannot be
   located, no matter how good its code is.
2. It is what gets sent **instead of** the body. When another bucket is edited,
   this one is shown as its signature and description only — its code is not
   sent. A reader must be able to tell what it does from that line alone.

So a wrong or vague description is worse than a missing one: it makes the bucket
either unfindable, or findable for the wrong reason, and it hands a future
reader a confident summary of code they cannot see.

Write descriptions that say what the bucket *does*, in the words someone would
use when asking for it:

- good: `"round a price down to whole cents"`
- good: `"true when the account is past its trial period"`
- bad: `"helper"` — unfindable, and tells a caller nothing
- bad: `"does the calculation"` — which calculation?
- bad: `"uses mod and floor"` — describes the code, not the behaviour

Always restate the description to match what the code does *after* your edit,
even when you are only changing the body. If the behaviour did not change, say
so by keeping the description as it was.

# Syntax you can use

- literals: `1`, `true`, `"text"`
- arithmetic: `+ - * / **` (`+` also joins two `Str` values)
- comparison: `== != < > <= >=`, logic: `&& || !`
- `if cond then a else b`
- `match x { None => …, Some(v) => … }`
- calls by label: `double(21)`; pipe: `x |> double`
- lists `[1, 2, 3]`, records `{ x: 1, y: 2 }`, field access `p.x`
- bindings: `name = expr` on its own line, last expression is the return value
- cores: `print`, `error`, `pow`, `mod`, `floor`, `abs`, `to_json`, `from_json`,
  `list_len`, `list_nth`, `list_append`, `list_concat`, `list_remove`

# Rules for your reply

- Write **only the body** — the expression that goes between the braces. Do not
  write the label, contract, description, or the braces themselves.
- Do not close a brace you did not open. A body that ends the bucket early will
  be rejected: it silently redefines the buckets around it.
- Keep the contract. You are changing what the bucket does, not its types.
- The bucket's `@test` cases must still pass. They are shown to you.
- Use `notes` to think, weigh options, and record anything worth knowing next
  time. Nothing in `notes` reaches the program."#;

/// System prompt for writing a bucket from nothing.
///
/// Generation and editing share the description discipline above; only the task
/// framing differs, so this appends rather than restating it.
pub const SYSTEM_GENERATE: &'static str = r#"

# You are writing a new program

Write a complete bucketlang program from the request. Rules:

- Every bucket needs a label, a typed contract, a description, and a body:
  `label(x: Num) -> Num "what it does" { x * 2 }`
- Exactly one bucket is marked `@entry` on the line above it.
- Add `@test label(input) == expected` lines above a bucket to pin its
  behaviour. Write tests for anything with real logic.
- Keep buckets small and give each one a description good enough to find it by.
- Reply with the whole program as the `body` field, a one-line summary of the
  program as `description`, and your reasoning as `notes`."#;

/// The schema of a text that is one of a few.
pub open spec fn choice(texts: JsonView, desc: Seq<char>) -> JsonView {
    json::with_field(
        json::with_field(toolset::kind("string"@), "enum"@, texts),
        "description"@,
        JsonView::Text(desc),
    )
}

fn choice_of(texts: Json, desc: &str) -> (r: Json)
    ensures
        r@ == choice(texts@, desc@),
{
    toolset::kind_of("string").with("enum", texts).with_text("description", desc)
}

/// The schema of the reply. All four fields are mandatory rather than optional
/// politeness.
pub open spec fn reply_shape() -> JsonView {
    toolset::record(
        json::with_field(
            json::with_field(
                json::with_field(
                    json::with_field(
                        json::no_fields(),
                        "notes"@,
                        toolset::kind_with(
                            "string"@,
                            "Your scratchpad. Reason here, weigh alternatives, and record anything worth knowing on a later edit. Not part of the program."@,
                        ),
                    ),
                    "description"@,
                    toolset::kind_with(
                        "string"@,
                        "What the bucket does after your edit, in plain English, phrased the way someone would ask for it. This is how the bucket is found and how it is summarised to other buckets."@,
                    ),
                ),
                "body"@,
                toolset::kind_with(
                    "string"@,
                    "The new body expression only — no label, contract, description, or braces."@,
                ),
            ),
            "confidence"@,
            choice(
                json::with_item(
                    json::with_item(
                        json::with_item(json::no_items(), JsonView::Text("high"@)),
                        JsonView::Text("medium"@),
                    ),
                    JsonView::Text("low"@),
                ),
                "How sure you are this is correct."@,
            ),
        ),
        json::with_item(
            json::with_item(
                json::with_item(
                    json::with_item(json::no_items(), JsonView::Text("notes"@)),
                    JsonView::Text("description"@),
                ),
                JsonView::Text("body"@),
            ),
            JsonView::Text("confidence"@),
        ),
    )
}

/// JSON schema for the reply.
///
/// Structured output rather than asking for JSON in prose: it is enforced, and
/// it makes `description` and `notes` mandatory.
pub fn reply_schema() -> (r: Json)
    ensures
        r@ == reply_shape(),
{
    toolset::record_of(
        Json::object().with(
            "notes",
            toolset::kind_with_of(
                "string",
                "Your scratchpad. Reason here, weigh alternatives, and record anything worth knowing on a later edit. Not part of the program.",
            ),
        ).with(
            "description",
            toolset::kind_with_of(
                "string",
                "What the bucket does after your edit, in plain English, phrased the way someone would ask for it. This is how the bucket is found and how it is summarised to other buckets.",
            ),
        ).with(
            "body",
            toolset::kind_with_of(
                "string",
                "The new body expression only — no label, contract, description, or braces.",
            ),
        ).with(
            "confidence",
            choice_of(
                Json::array().and(Json::text("high")).and(Json::text("medium")).and(
                    Json::text("low"),
                ),
                "How sure you are this is correct.",
            ),
        ),
        Json::array().and(Json::text("notes")).and(Json::text("description")).and(
            Json::text("body"),
        ).and(
            Json::text("confidence"),
        ),
    )
}

/// The reply, once parsed.
#[derive(Debug, Clone)]
pub struct Reply {
    pub notes: String,
    pub description: String,
    pub body: String,
    pub confidence: String,
}

/// An attempt that was rejected.
#[derive(Debug, Clone)]
pub struct PreviousAttempt {
    pub body: String,
    pub notes: String,
    pub rejections: Vec<String>,
}

/// The reasons for a rejection, one per line.
pub open spec fn rejection_lines(lines: Seq<Seq<char>>) -> Seq<char>
    decreases lines.len(),
{
    if lines.len() == 0 {
        Seq::empty()
    } else {
        rejection_lines(lines.drop_last()) + ("- "@ + lines.last() + "\n"@)
    }
}

/// The notes of an attempt, if it left any.
pub open spec fn notes_section(notes: Seq<char>) -> Seq<char> {
    if text::trim(notes).len() == 0 {
        Seq::empty()
    } else {
        "\nYour notes from that attempt:\n\n"@ + text::trim(notes) + "\n"@
    }
}

/// What is said of an attempt that was rejected; `number` is its own.
pub open spec fn retry_section(number: nat, prev: PreviousAttempt) -> Seq<char> {
    "\n# attempt "@ + text::decimal(number)
        + " was rejected\n\nYou wrote this body:\n\n```\n"@ + prev.body@
        + "\n```\n\nIt was rejected:\n\n"@ + rejection_lines(text::texts(prev.rejections@))
        + notes_section(prev.notes@) + "\nFix the cause. Do not repeat the same body.\n"@
}

/// The user turn: the request, the context, and, on a retry, why the last
/// attempt was rejected plus the notes it left itself.
pub open spec fn turn_text(
    goal: Seq<char>,
    context: Seq<char>,
    attempt: nat,
    previous: Option<&PreviousAttempt>,
) -> Seq<char> {
    "# what to change\n\n"@ + goal + "\n\n"@ + context + match previous {
        Some(p) => retry_section((attempt - 1) as nat, *p),
        None => Seq::empty(),
    }
}

fn rejections_of(lines: &Vec<String>) -> (r: String)
    ensures
        r@ == rejection_lines(text::texts(lines@)),
{
    let ghost all = text::texts(lines@);
    let mut s = String::new();
    let mut i: usize = 0;
    assert(all.take(0) =~= Seq::<Seq<char>>::empty());
    while i < lines.len()
        invariant
            i <= lines@.len(),
            all == text::texts(lines@),
            s@ == rejection_lines(all.take(i as int)),
        decreases lines@.len() - i,
    {
        assert(all.take(i + 1).drop_last() =~= all.take(i as int));
        assert(all.take(i + 1).last() == lines@[i as int]@);
        let mut line = "- ".to_owned();
        line.append(&lines[i]);
        line.append("\n");
        s.append(&line);
        i = i + 1;
    }
    assert(all.take(lines@.len() as int) =~= all);
    s
}

fn notes_of(notes: &str) -> (r: String)
    ensures
        r@ == notes_section(notes@),
{
    let t = text::trimmed(notes);
    if t.as_str().is_empty() {
        return String::new();
    }
    let mut s = "\nYour notes from that attempt:\n\n".to_owned();
    s.append(&t);
    s.append("\n");
    s
}

/// Build the user turn. Attempts are counted from 1, so the one before a retry
/// has a number.
pub fn user_turn(
    goal: &str,
    context: &str,
    attempt: usize,
    previous: Option<&PreviousAttempt>,
) -> (r: String)
    requires
        previous is Some ==> attempt >= 1,
    ensures
        r@ == turn_text(goal@, context@, attempt as nat, previous),
{
    let mut s = "# what to change\n\n".to_owned();
    s.append(goal);
    s.append("\n\n");
    s.append(context);
    let mut retry = String::new();
    match previous {
        Some(prev) => {
            retry = "\n# attempt ".to_owned();
            retry.append(&text::decimal_of((attempt - 1) as u64));
            retry.append(" was rejected\n\nYou wrote this body:\n\n```\n");
            retry.append(&prev.body);
            retry.append("\n```\n\nIt was rejected:\n\n");
            retry.append(&rejections_of(&prev.rejections));
            retry.append(&notes_of(&prev.notes));
            retry.append("\nFix the cause. Do not repeat the same body.\n");
        },
        None => {},
    }
    s.append(&retry);
    s
}

// ---------------------------------------------------------------------- laws

/// A first turn is the goal and the context, and nothing behind them.
pub proof fn law_first_turn_is_goal_and_context(goal: Seq<char>, context: Seq<char>, attempt: nat)
    ensures
        turn_text(goal, context, attempt, None) == "# what to change\n\n"@ + goal + "\n\n"@
            + context,
{
    let t = "# what to change\n\n"@ + goal + "\n\n"@ + context;
    assert(t + Seq::<char>::empty() =~= t);
}

/// A retry starts as the first turn did. Behind that it gives the number of the
/// attempt before, its body, each reason for which it was rejected, and the notes
/// that came with it unless they are blank.
pub proof fn law_retry_tells_what_was_rejected(
    goal: Seq<char>,
    context: Seq<char>,
    attempt: nat,
    prev: &PreviousAttempt,
    i: int,
)
    requires
        attempt >= 1,
    ensures
        ({
            let t = turn_text(goal, context, attempt, Some(prev));
            &&& text::starts_with(t, turn_text(goal, context, attempt, None))
            &&& text::contains_text(
                t,
                "# attempt "@ + text::decimal((attempt - 1) as nat) + " was rejected"@,
            )
            &&& text::contains_text(t, "```\n"@ + prev.body@ + "\n```"@)
            &&& 0 <= i < prev.rejections@.len() ==> text::contains_text(
                t,
                "- "@ + prev.rejections@[i]@ + "\n"@,
            )
            &&& text::contains_text(t, text::trim(prev.notes@))
        }),
{
    let first = "# what to change\n\n"@ + goal + "\n\n"@ + context;
    let none = Seq::<char>::empty();
    assert(turn_text(goal, context, attempt, None) =~= first);
    let n = text::decimal((attempt - 1) as nat);
    let body = prev.body@;
    let lines = rejection_lines(text::texts(prev.rejections@));
    let notes = notes_section(prev.notes@);
    let w1 = "\n# attempt "@;
    let w2 = " was rejected\n\nYou wrote this body:\n\n```\n"@;
    let w3 = "\n```\n\nIt was rejected:\n\n"@;
    let w4 = "\nFix the cause. Do not repeat the same body.\n"@;
    let retry = w1 + n + w2 + body + w3 + lines + notes + w4;
    let t = first + retry;
    assert(t == turn_text(goal, context, attempt, Some(prev)));
    text::law_parts_of_a_text(none, retry, first);
    // The number.
    reveal_strlit("\n# attempt ");
    reveal_strlit("# attempt ");
    reveal_strlit(" was rejected\n\nYou wrote this body:\n\n```\n");
    reveal_strlit(" was rejected");
    let numbered = "# attempt "@ + n + " was rejected"@;
    let at = first.len() + 1;
    assert(t.subrange(at as int, (at + numbered.len()) as int) =~= numbered);
    assert(text::occurs_at(t, numbered, at as int));
    // The body.
    reveal_strlit("```\n");
    reveal_strlit("\n```");
    reveal_strlit("\n```\n\nIt was rejected:\n\n");
    let fenced = "```\n"@ + body + "\n```"@;
    let ready = first.len() + w1.len() + n.len() + w2.len() - 4;
    assert(t.subrange(ready, ready + fenced.len()) =~= fenced);
    assert(text::occurs_at(t, fenced, ready));
    // The reasons.
    let before = first + (w1 + n + w2 + body + w3);
    if 0 <= i < prev.rejections@.len() {
        let all = text::texts(prev.rejections@);
        let line = "- "@ + all[i] + "\n"@;
        let k = lemma_rejection_listed(all, i);
        let j = before.len() + k;
        assert(t.subrange(j, j + line.len()) =~= lines.subrange(k, k + line.len()));
        assert(text::occurs_at(t, line, j));
    }
    // The notes.
    let trimmed = text::trim(prev.notes@);
    if trimmed.len() == 0 {
        assert(t.subrange(0, 0) =~= trimmed);
        assert(text::occurs_at(t, trimmed, 0));
    } else {
        let w5 = "\nYour notes from that attempt:\n\n"@;
        let j = before.len() + lines.len() + w5.len();
        assert(t.subrange(j as int, (j + trimmed.len()) as int) =~= trimmed);
        assert(text::occurs_at(t, trimmed, j as int));
    }
}

proof fn lemma_rejection_listed(lines: Seq<Seq<char>>, i: int) -> (k: int)
    requires
        0 <= i < lines.len(),
    ensures
        text::occurs_at(rejection_lines(lines), "- "@ + lines[i] + "\n"@, k),
    decreases lines.len(),
{
    let all = rejection_lines(lines);
    let line = "- "@ + lines[i] + "\n"@;
    let front = rejection_lines(lines.drop_last());
    if i == lines.len() - 1 {
        let k = front.len() as int;
        assert(all.subrange(k, k + line.len()) =~= line);
        k
    } else {
        let k = lemma_rejection_listed(lines.drop_last(), i);
        assert(all.subrange(k, k + line.len()) =~= front.subrange(k, k + line.len()));
        k
    }
}

/// A reply holds notes, a description, a body and how sure it is, all four as
/// texts, all four required; how sure it is has three degrees.
pub proof fn law_reply_has_four_parts()
    ensures
        ({
            let o = reply_shape();
            let p = json::get(o, "properties"@)->0;
            &&& json::get(o, "type"@) == Some(JsonView::Text("object"@))
            &&& json::get(o, "additionalProperties"@) == Some(JsonView::Bool(false))
            &&& json::get(o, "required"@) == Some(
                json::text_array(seq!["notes"@, "description"@, "body"@, "confidence"@]),
            )
            &&& json::get(p, "notes"@) matches Some(v) && json::get(v, "type"@) == Some(
                JsonView::Text("string"@),
            )
            &&& json::get(p, "description"@) matches Some(v) && json::get(v, "type"@) == Some(
                JsonView::Text("string"@),
            )
            &&& json::get(p, "body"@) matches Some(v) && json::get(v, "type"@) == Some(
                JsonView::Text("string"@),
            )
            &&& json::get(p, "confidence"@) matches Some(v) && json::get(v, "type"@) == Some(
                JsonView::Text("string"@),
            )
            &&& json::get(p, "confidence"@) matches Some(v) && json::get(v, "enum"@) == Some(
                json::text_array(seq!["high"@, "medium"@, "low"@]),
            )
        }),
{
    let o = reply_shape();
    let p = o->Object_0[1].1;
    let required = o->Object_0[2].1;
    toolset::law_schema_takes_its_properties(p, required);
    assert(required->Array_0 =~= json::text_array(
        seq!["notes"@, "description"@, "body"@, "confidence"@],
    )->Array_0);
    let f = p->Object_0;
    reveal_strlit("notes");
    reveal_strlit("description");
    reveal_strlit("body");
    reveal_strlit("confidence");
    assert("notes"@.len() == 5);
    assert("description"@.len() == 11);
    assert("body"@.len() == 4);
    assert("confidence"@.len() == 10);
    assert(f[0].0 == "notes"@);
    assert(f[1].0 == "description"@);
    assert(f[2].0 == "body"@);
    assert(f[3].0 == "confidence"@);
    json::law_last_value_of_a_key_counts(f, "notes"@, 0);
    json::law_last_value_of_a_key_counts(f, "description"@, 1);
    json::law_last_value_of_a_key_counts(f, "body"@, 2);
    json::law_last_value_of_a_key_counts(f, "confidence"@, 3);
    reveal_strlit("type");
    reveal_strlit("enum");
    assert("type"@.len() == 4 && "type"@[0] == 't' && "enum"@.len() == 4 && "enum"@[0] == 'e');
    let v0 = f[0].1->Object_0;
    assert(v0[0].0 == "type"@ && v0[1].0 == "description"@);
    json::law_last_value_of_a_key_counts(v0, "type"@, 0);
    let v1 = f[1].1->Object_0;
    assert(v1[0].0 == "type"@ && v1[1].0 == "description"@);
    json::law_last_value_of_a_key_counts(v1, "type"@, 0);
    let v2 = f[2].1->Object_0;
    assert(v2[0].0 == "type"@ && v2[1].0 == "description"@);
    json::law_last_value_of_a_key_counts(v2, "type"@, 0);
    let c = f[3].1->Object_0;
    assert(c[0].0 == "type"@ && c[1].0 == "enum"@ && c[2].0 == "description"@);
    json::law_last_value_of_a_key_counts(c, "type"@, 0);
    json::law_last_value_of_a_key_counts(c, "enum"@, 1);
    assert(c[1].1->Array_0 =~= json::text_array(seq!["high"@, "medium"@, "low"@])->Array_0);
}

} // verus!
