//! The Anthropic Messages API: what is sent, and what an answer means.
//!
//! Raw HTTP rather than an SDK. The request and response shapes here follow the
//! documented REST contract; the caller carries the bytes.
//!
//! Three details of the current API are load-bearing and easy to get wrong:
//!
//! - **`stop_reason` must be read before `content`.** Safety classifiers can
//!   decline a request and still return HTTP 200 with an empty or partial
//!   `content` array.
//! - **No sampling parameters.** `temperature`, `top_p`, and `top_k` are
//!   rejected on current models. Steer with the prompt; use `effort` for depth.
//! - **Usage is authoritative.** The response reports real input/output token
//!   counts, so the harness measures compression against those rather than
//!   trusting its own character heuristic.

use crate::json;
use crate::json::{Json, JsonView};
use crate::text;
use vstd::prelude::*;

verus! {

/// Default model. Overridable per client, see [`Config::with_model`].
pub const DEFAULT_MODEL: &'static str = "opus-5";

pub const API_URL: &'static str = "https://api.anthropic.com/v1/messages";

pub const API_VERSION: &'static str = "2023-06-01";

#[derive(Debug, Clone)]
pub struct Config {
    pub api_key: String,
    pub model: String,
    /// Hard ceiling on output tokens. Also caps thinking, which is on by
    /// default on current models: too small a value truncates mid-answer.
    pub max_tokens: u32,
    /// `low` | `medium` | `high` | `xhigh` | `max`. Controls reasoning depth
    /// and overall spend. `None` uses the API default.
    pub effort: Option<String>,
    pub base_url: String,
    /// Seconds until a request is given up.
    pub timeout: u64,
}

impl Config {
    /// The configuration for a key, which is what the environment holds under
    /// `ANTHROPIC_API_KEY`.
    pub fn from_env(key: Option<String>) -> (r: Result<Config, String>)
        ensures
            match (r, key) {
                (Ok(c), Some(k)) => {
                    &&& c.api_key == k
                    &&& c.model@ == DEFAULT_MODEL@
                    &&& c.max_tokens == 16_000
                    &&& text::opt_text(c.effort) == Some("high"@)
                    &&& c.base_url@ == API_URL@
                    &&& c.timeout == 600
                },
                (Err(e), None) => e@ == "ANTHROPIC_API_KEY is not set"@,
                _ => false,
            },
    {
        match key {
            Some(api_key) => Ok(
                Config {
                    api_key,
                    model: DEFAULT_MODEL.to_owned(),
                    max_tokens: 16_000,
                    effort: Some("high".to_owned()),
                    base_url: API_URL.to_owned(),
                    // Generous: a single request at high effort can think for
                    // minutes.
                    timeout: 600,
                },
            ),
            None => Err("ANTHROPIC_API_KEY is not set".to_owned()),
        }
    }

    pub fn with_model(self, model: String) -> (r: Config)
        ensures
            r == (Config { model, ..self }),
    {
        let mut c = self;
        c.model = model;
        c
    }

    pub fn with_effort(self, effort: Option<String>) -> (r: Config)
        ensures
            r == (Config { effort, ..self }),
    {
        let mut c = self;
        c.effort = effort;
        c
    }

    /// The configuration without what its model does not accept.
    pub open spec fn accepted(self) -> Config {
        if text::contains_text(self.model@, "haiku"@) {
            Config { effort: None, ..self }
        } else {
            self
        }
    }

    /// Drop parameters the target model does not accept.
    ///
    /// `effort` is rejected outright by Haiku 4.5, so passing it through
    /// unconditionally turns a valid request into a 400 that reads as if the
    /// model itself were unavailable.
    pub fn normalized(self) -> (r: Config)
        ensures
            r == self.accepted(),
    {
        let mut c = self;
        if text::has_part(&c.model, "haiku") {
            c.effort = None;
        }
        c
    }
}

// ---------------------------------------------------------------- request

/// A conversation turn. Content is a block list rather than a string because
/// tool use requires it: an assistant turn carries `tool_use` blocks, and the
/// user turn answering it carries `tool_result` blocks.
pub struct Message {
    pub role: String,
    pub content: Json,
}

/// A turn, as contracts speak of it.
pub struct MessageView {
    pub role: Seq<char>,
    pub content: JsonView,
}

impl View for Message {
    type V = MessageView;

    open spec fn view(&self) -> MessageView {
        MessageView { role: self.role@, content: self.content@ }
    }
}

/// The views of a list of turns.
pub open spec fn turns(v: Seq<Message>) -> Seq<MessageView> {
    v.map_values(|m: Message| m@)
}

impl Message {
    pub fn user(text: &str) -> (r: Message)
        ensures
            r@ == (MessageView { role: "user"@, content: JsonView::Text(text@) }),
    {
        Message { role: "user".to_owned(), content: Json::text(text) }
    }

    /// Echo an assistant turn back verbatim. The full content must be preserved:
    /// dropping the `tool_use` blocks breaks the pairing the API requires.
    pub fn assistant(content: Json) -> (r: Message)
        ensures
            r@ == (MessageView { role: "assistant"@, content: content@ }),
    {
        Message { role: "assistant".to_owned(), content }
    }

    /// Results for one assistant turn. Every `tool_use` needs a matching
    /// `tool_result` in a *single* user message: splitting them across messages
    /// teaches the model to stop calling tools in parallel.
    pub fn tool_results(results: Vec<Json>) -> (r: Message)
        ensures
            r@ == (MessageView {
                role: "user"@,
                content: JsonView::Array(json::trees(results@)),
            }),
    {
        Message { role: "user".to_owned(), content: Json::list(results) }
    }
}

/// A tool the model may call.
pub struct Tool {
    pub name: String,
    pub description: String,
    pub input_schema: Json,
}

/// A tool, as contracts speak of it.
pub struct ToolView {
    pub name: Seq<char>,
    pub description: Seq<char>,
    pub input_schema: JsonView,
}

impl View for Tool {
    type V = ToolView;

    open spec fn view(&self) -> ToolView {
        ToolView {
            name: self.name@,
            description: self.description@,
            input_schema: self.input_schema@,
        }
    }
}

/// The views of a list of tools.
pub open spec fn tool_views(v: Seq<Tool>) -> Seq<ToolView> {
    v.map_values(|t: Tool| t@)
}

/// The views of an optional list of tools.
pub open spec fn opt_tool_views(o: Option<&[Tool]>) -> Option<Seq<ToolView>> {
    match o {
        Some(v) => Some(tool_views(v@)),
        None => None,
    }
}

/// One tool invocation from the model.
pub struct ToolCall {
    pub id: String,
    pub name: String,
    pub input: Json,
}

/// A tool invocation, as contracts speak of it.
pub struct ToolCallView {
    pub id: Seq<char>,
    pub name: Seq<char>,
    pub input: JsonView,
}

impl View for ToolCall {
    type V = ToolCallView;

    open spec fn view(&self) -> ToolCallView {
        ToolCallView { id: self.id@, name: self.name@, input: self.input@ }
    }
}

/// The views of a list of tool invocations.
pub open spec fn call_views(v: Seq<ToolCall>) -> Seq<ToolCallView> {
    v.map_values(|c: ToolCall| c@)
}

/// The block that answers a tool invocation.
pub open spec fn tool_result(id: Seq<char>, content: Seq<char>, is_error: bool) -> JsonView {
    JsonView::Object(
        seq![
            ("type"@, JsonView::Text("tool_result"@)),
            ("tool_use_id"@, JsonView::Text(id)),
            ("content"@, JsonView::Text(content)),
            ("is_error"@, JsonView::Bool(is_error)),
        ],
    )
}

impl ToolCall {
    /// Build the result block that answers this call.
    pub fn result(&self, content: &str, is_error: bool) -> (r: Json)
        ensures
            r@ == tool_result(self.id@, content@, is_error),
    {
        let r = Json::object().with_text("type", "tool_result").with_text(
            "tool_use_id",
            &self.id,
        ).with_text("content", content).with("is_error", Json::Bool(is_error));
        assert(r@->Object_0 =~= tool_result(self.id@, content@, is_error)->Object_0);
        r
    }
}

/// The system prompt as a block list. Blocks rather than a bare string, so the
/// stable prefix carries `cache_control` and bills at cache-read rates on later
/// turns.
pub open spec fn system_blocks(system: Seq<char>) -> JsonView {
    JsonView::Array(
        seq![
            JsonView::Object(
                seq![
                    ("type"@, JsonView::Text("text"@)),
                    ("text"@, JsonView::Text(system)),
                    (
                        "cache_control"@,
                        JsonView::Object(seq![("type"@, JsonView::Text("ephemeral"@))]),
                    ),
                ],
            ),
        ],
    )
}

/// A turn as it is sent.
pub open spec fn message_block(m: MessageView) -> JsonView {
    JsonView::Object(seq![("role"@, JsonView::Text(m.role)), ("content"@, m.content)])
}

/// A tool as it is sent.
pub open spec fn tool_block(t: ToolView) -> JsonView {
    JsonView::Object(
        seq![
            ("name"@, JsonView::Text(t.name)),
            ("description"@, JsonView::Text(t.description)),
            ("input_schema"@, t.input_schema),
        ],
    )
}

/// The output options: the effort, and a schema that constrains the reply. The
/// schema is used instead of asking for JSON in prose, which is unreliable, and
/// instead of prefilling the assistant turn, which current models reject.
pub open spec fn output_config(effort: Option<Seq<char>>, schema: Option<JsonView>) -> JsonView {
    let first = match effort {
        Some(e) => seq![("effort"@, JsonView::Text(e))],
        None => Seq::empty(),
    };
    JsonView::Object(
        match schema {
            Some(s) => first.push(
                (
                    "format"@,
                    JsonView::Object(
                        seq![("type"@, JsonView::Text("json_schema"@)), ("schema"@, s)],
                    ),
                ),
            ),
            None => first,
        },
    )
}

/// The body of a request. What is not given is left out rather than null.
pub open spec fn request_body(
    cfg: Config,
    system: Seq<char>,
    messages: Seq<MessageView>,
    tools: Option<Seq<ToolView>>,
    schema: Option<JsonView>,
) -> JsonView {
    let fixed = seq![
        ("model"@, JsonView::Text(cfg.model@)),
        ("max_tokens"@, JsonView::Unsigned(cfg.max_tokens as u64)),
        ("system"@, system_blocks(system)),
        ("messages"@, JsonView::Array(messages.map_values(|m: MessageView| message_block(m)))),
    ];
    let with_tools = match tools {
        Some(t) => fixed.push(
            ("tools"@, JsonView::Array(t.map_values(|t: ToolView| tool_block(t)))),
        ),
        None => fixed,
    };
    JsonView::Object(
        if cfg.effort is Some || schema is Some {
            with_tools.push(("output_config"@, output_config(text::opt_text(cfg.effort), schema)))
        } else {
            with_tools
        },
    )
}

fn system_value(system: &str) -> (r: Json)
    ensures
        r@ == system_blocks(system@),
{
    let cache = Json::object().with_text("type", "ephemeral");
    assert(cache@->Object_0 =~= seq![("type"@, JsonView::Text("ephemeral"@))]);
    let block = Json::object().with_text("type", "text").with_text("text", system).with(
        "cache_control",
        cache,
    );
    assert(block@->Object_0 =~= system_blocks(system@)->Array_0[0]->Object_0);
    let r = Json::array().and(block);
    assert(r@->Array_0 =~= system_blocks(system@)->Array_0);
    r
}

fn messages_value(messages: &[Message]) -> (r: Json)
    ensures
        r@ == JsonView::Array(turns(messages@).map_values(|m: MessageView| message_block(m))),
{
    let ghost want = turns(messages@).map_values(|m: MessageView| message_block(m));
    let mut items: Vec<Json> = Vec::new();
    let mut i: usize = 0;
    while i < messages.len()
        invariant
            i <= messages@.len(),
            items@.len() == i,
            want == turns(messages@).map_values(|m: MessageView| message_block(m)),
            forall|k: int| 0 <= k < i ==> #[trigger] items@[k]@ == want[k],
        decreases messages@.len() - i,
    {
        let block = Json::object().with_text("role", &messages[i].role).with(
            "content",
            messages[i].content.copy(),
        );
        assert(block@->Object_0 =~= want[i as int]->Object_0);
        items.push(block);
        i = i + 1;
    }
    let r = Json::Array(items);
    assert forall|k: int| 0 <= k < want.len() implies #[trigger] r@->Array_0[k] == want[k] by {
        assert(items@[k]@ == want[k]);
    }
    assert(r@->Array_0 =~= want);
    r
}

fn tools_value(tools: &[Tool]) -> (r: Json)
    ensures
        r@ == JsonView::Array(tool_views(tools@).map_values(|t: ToolView| tool_block(t))),
{
    let ghost want = tool_views(tools@).map_values(|t: ToolView| tool_block(t));
    let mut items: Vec<Json> = Vec::new();
    let mut i: usize = 0;
    while i < tools.len()
        invariant
            i <= tools@.len(),
            items@.len() == i,
            want == tool_views(tools@).map_values(|t: ToolView| tool_block(t)),
            forall|k: int| 0 <= k < i ==> #[trigger] items@[k]@ == want[k],
        decreases tools@.len() - i,
    {
        let block = Json::object().with_text("name", &tools[i].name).with_text(
            "description",
            &tools[i].description,
        ).with("input_schema", tools[i].input_schema.copy());
        assert(block@->Object_0 =~= want[i as int]->Object_0);
        items.push(block);
        i = i + 1;
    }
    let r = Json::Array(items);
    assert forall|k: int| 0 <= k < want.len() implies #[trigger] r@->Array_0[k] == want[k] by {
        assert(items@[k]@ == want[k]);
    }
    assert(r@->Array_0 =~= want);
    r
}

// --------------------------------------------------------------- response

/// Token accounting straight from the API: what the harness measures with.
#[derive(Debug, Clone, Copy)]
pub struct Usage {
    pub input_tokens: u32,
    pub output_tokens: u32,
    pub cache_read_input_tokens: u32,
    pub cache_creation_input_tokens: u32,
}

impl Default for Usage {
    fn default() -> (r: Usage)
        ensures
            r == (Usage {
                input_tokens: 0,
                output_tokens: 0,
                cache_read_input_tokens: 0,
                cache_creation_input_tokens: 0,
            }),
    {
        Usage {
            input_tokens: 0,
            output_tokens: 0,
            cache_read_input_tokens: 0,
            cache_creation_input_tokens: 0,
        }
    }
}

impl Usage {
    /// Everything the request cost on the way in, cached or not.
    pub fn total_input(&self) -> (r: u32)
        requires
            self.input_tokens + self.cache_read_input_tokens + self.cache_creation_input_tokens
                <= u32::MAX,
        ensures
            r == self.input_tokens + self.cache_read_input_tokens
                + self.cache_creation_input_tokens,
    {
        self.input_tokens + self.cache_read_input_tokens + self.cache_creation_input_tokens
    }
}

/// The model's turn.
pub struct Completion {
    pub text: String,
    pub usage: Usage,
    pub model: String,
    pub stop_reason: Option<String>,
    /// Tool calls the model made this turn. Non-empty iff `stop_reason` is
    /// `tool_use`.
    pub tool_calls: Vec<ToolCall>,
    /// The assistant turn exactly as received, for echoing back into history.
    pub raw_content: Json,
}

/// The model's turn, as contracts speak of it.
pub struct CompletionView {
    pub text: Seq<char>,
    pub usage: Usage,
    pub model: Seq<char>,
    pub stop_reason: Option<Seq<char>>,
    pub tool_calls: Seq<ToolCallView>,
    pub raw_content: JsonView,
}

impl View for Completion {
    type V = CompletionView;

    open spec fn view(&self) -> CompletionView {
        CompletionView {
            text: self.text@,
            usage: self.usage,
            model: self.model@,
            stop_reason: text::opt_text(self.stop_reason),
            tool_calls: call_views(self.tool_calls@),
            raw_content: self.raw_content@,
        }
    }
}

impl Completion {
    pub fn wants_tools(&self) -> (r: bool)
        ensures
            r == (self@.stop_reason == Some("tool_use"@)),
    {
        match &self.stop_reason {
            Some(s) => text::same(s, "tool_use"),
            None => false,
        }
    }
}

#[derive(Debug)]
pub enum LlmError {
    /// Safety classifiers declined. Retrying the same prompt will not help.
    Refused { category: Option<String>, explanation: Option<String> },
    /// Output hit `max_tokens`: the reply is truncated, not wrong.
    Truncated,
    Http { status: u16, body: String },
    Transport(String),
    Decode(String),
}

/// A failed request, as contracts speak of it.
pub enum LlmErrorView {
    Refused(Option<Seq<char>>, Option<Seq<char>>),
    Truncated,
    Http(u16, Seq<char>),
    Transport(Seq<char>),
    Decode(Seq<char>),
}

impl View for LlmError {
    type V = LlmErrorView;

    open spec fn view(&self) -> LlmErrorView {
        match self {
            LlmError::Refused { category, explanation } => LlmErrorView::Refused(
                text::opt_text(*category),
                text::opt_text(*explanation),
            ),
            LlmError::Truncated => LlmErrorView::Truncated,
            LlmError::Http { status, body } => LlmErrorView::Http(*status, body@),
            LlmError::Transport(e) => LlmErrorView::Transport(e@),
            LlmError::Decode(e) => LlmErrorView::Decode(e@),
        }
    }
}

/// What was declined and why, as far as it is known.
pub open spec fn refusal_details(category: Option<Seq<char>>, explanation: Option<Seq<char>>) -> Seq<
    char,
> {
    (match category {
        Some(c) => " ("@ + c + ")"@,
        None => Seq::empty(),
    }) + (match explanation {
        Some(e) => ": "@ + e,
        None => Seq::empty(),
    })
}

fn details_of(category: &Option<String>, explanation: &Option<String>) -> (r: String)
    ensures
        r@ == refusal_details(text::opt_text(*category), text::opt_text(*explanation)),
{
    let mut s = String::new();
    match category {
        Some(c) => {
            s = " (".to_owned();
            s.append(c);
            s.append(")");
        },
        None => {},
    }
    let mut t = String::new();
    match explanation {
        Some(e) => {
            t = ": ".to_owned();
            t.append(e);
        },
        None => {},
    }
    s.append(&t);
    s
}

impl LlmErrorView {
    /// The failure in words.
    pub open spec fn words(self) -> Seq<char> {
        match self {
            LlmErrorView::Refused(c, e) => "request was declined"@ + refusal_details(c, e),
            LlmErrorView::Truncated =>
                "response hit max_tokens and is truncated; raise max_tokens or lower effort"@,
            LlmErrorView::Http(status, body) => "api returned "@ + text::decimal(status as nat)
                + ": "@ + body,
            LlmErrorView::Transport(e) => "transport error: "@ + e,
            LlmErrorView::Decode(e) => "could not decode response: "@ + e,
        }
    }

    /// The failure as the end of a whole run. Of a refusal it says that it was
    /// the model that declined.
    pub open spec fn run_words(self) -> Seq<char> {
        match self {
            LlmErrorView::Refused(c, e) => "the model declined this request"@ + refusal_details(
                c,
                e,
            ),
            _ => self.words(),
        }
    }
}

impl LlmError {
    pub fn describe(&self) -> (r: String)
        ensures
            r@ == self@.words(),
    {
        match self {
            LlmError::Refused { category, explanation } => {
                let mut s = "request was declined".to_owned();
                s.append(&details_of(category, explanation));
                s
            },
            LlmError::Truncated =>
                "response hit max_tokens and is truncated; raise max_tokens or lower effort".to_owned(),
            LlmError::Http { status, body } => {
                let mut s = "api returned ".to_owned();
                s.append(&text::decimal_of(*status as u64));
                s.append(": ");
                s.append(body);
                s
            },
            LlmError::Transport(e) => {
                let mut s = "transport error: ".to_owned();
                s.append(e);
                s
            },
            LlmError::Decode(e) => {
                let mut s = "could not decode response: ".to_owned();
                s.append(e);
                s
            },
        }
    }

    /// The failure as the end of a whole run.
    pub fn describe_run(&self) -> (r: String)
        ensures
            r@ == self@.run_words(),
    {
        match self {
            LlmError::Refused { category, explanation } => {
                let mut s = "the model declined this request".to_owned();
                s.append(&details_of(category, explanation));
                s
            },
            _ => self.describe(),
        }
    }
}

/// A count of tokens in the field `key`; 0 where there is none.
pub open spec fn count(v: JsonView, key: Seq<char>) -> u32 {
    match json::get(v, key) {
        Some(JsonView::Unsigned(n)) => if n <= u32::MAX {
            n as u32
        } else {
            0
        },
        _ => 0,
    }
}

fn count_in(v: &Json, key: &str) -> (r: u32)
    ensures
        r == count(v@, key@),
{
    match v.get(key) {
        Some(Json::Unsigned(n)) => if *n <= u32::MAX as u64 {
            *n as u32
        } else {
            0
        },
        _ => 0,
    }
}

/// The usage that a response reports.
pub open spec fn usage(raw: JsonView) -> Usage {
    match json::get(raw, "usage"@) {
        Some(u) => Usage {
            input_tokens: count(u, "input_tokens"@),
            output_tokens: count(u, "output_tokens"@),
            cache_read_input_tokens: count(u, "cache_read_input_tokens"@),
            cache_creation_input_tokens: count(u, "cache_creation_input_tokens"@),
        },
        None => Usage {
            input_tokens: 0,
            output_tokens: 0,
            cache_read_input_tokens: 0,
            cache_creation_input_tokens: 0,
        },
    }
}

fn usage_of(raw: &Json) -> (r: Usage)
    ensures
        r == usage(raw@),
{
    match raw.get("usage") {
        Some(u) => Usage {
            input_tokens: count_in(u, "input_tokens"),
            output_tokens: count_in(u, "output_tokens"),
            cache_read_input_tokens: count_in(u, "cache_read_input_tokens"),
            cache_creation_input_tokens: count_in(u, "cache_creation_input_tokens"),
        },
        None => Usage::default(),
    }
}

/// The text of the text blocks. Thinking blocks share the content array with
/// text; only text is kept.
pub open spec fn text_of_blocks(blocks: Seq<JsonView>) -> Seq<char>
    decreases blocks.len(),
{
    if blocks.len() == 0 {
        Seq::empty()
    } else {
        let rest = text_of_blocks(blocks.drop_last());
        let b = blocks.last();
        if json::get_text(b, "type"@) == Some("text"@) {
            rest + json::get_text_or_empty(b, "text"@)
        } else {
            rest
        }
    }
}

/// The call that a block makes; `None` if it makes none, or lacks its id or its
/// name.
pub open spec fn call_of_block(b: JsonView) -> Option<ToolCallView> {
    if json::get_text(b, "type"@) != Some("tool_use"@) {
        None
    } else {
        match (json::get_text(b, "id"@), json::get_text(b, "name"@)) {
            (Some(id), Some(name)) => Some(
                ToolCallView {
                    id,
                    name,
                    input: match json::get(b, "input"@) {
                        Some(v) => v,
                        None => JsonView::Null,
                    },
                },
            ),
            _ => None,
        }
    }
}

/// The calls that the blocks make, in their order.
pub open spec fn calls_of_blocks(blocks: Seq<JsonView>) -> Seq<ToolCallView>
    decreases blocks.len(),
{
    if blocks.len() == 0 {
        Seq::empty()
    } else {
        let rest = calls_of_blocks(blocks.drop_last());
        match call_of_block(blocks.last()) {
            Some(c) => rest.push(c),
            None => rest,
        }
    }
}

/// The reason for which the model stopped.
pub open spec fn stop_reason(raw: JsonView) -> Option<Seq<char>> {
    json::get_text(raw, "stop_reason"@)
}

/// A text under `stop_details`.
pub open spec fn stop_detail(raw: JsonView, key: Seq<char>) -> Option<Seq<char>> {
    match json::get(raw, "stop_details"@) {
        Some(d) => json::get_text(d, key),
        None => None,
    }
}

/// The model stopped to have tools called.
pub open spec fn stops_for_tools(raw: JsonView) -> bool {
    stop_reason(raw) == Some("tool_use"@)
}

/// The calls that a response makes: those of its blocks, where it stopped for
/// tools.
pub open spec fn calls_made(raw: JsonView) -> Seq<ToolCallView> {
    if stops_for_tools(raw) {
        calls_of_blocks(json::get_items(raw, "content"@))
    } else {
        Seq::empty()
    }
}

/// What a response means. A refusal can carry an empty content array, so the
/// stop reason comes before anything that reads content. A response that stops
/// for tools and holds no call that can be read is malformed.
pub open spec fn meaning(raw: JsonView) -> Result<CompletionView, LlmErrorView> {
    if stop_reason(raw) == Some("refusal"@) {
        Err(
            LlmErrorView::Refused(
                stop_detail(raw, "category"@),
                stop_detail(raw, "explanation"@),
            ),
        )
    } else if stop_reason(raw) == Some("max_tokens"@) {
        Err(LlmErrorView::Truncated)
    } else if stops_for_tools(raw) && calls_made(raw).len() == 0 {
        Err(LlmErrorView::Decode("the response stops for tools but holds no tool call"@))
    } else {
        Ok(
            CompletionView {
                text: text_of_blocks(json::get_items(raw, "content"@)),
                usage: usage(raw),
                model: json::get_text_or_empty(raw, "model"@),
                stop_reason: stop_reason(raw),
                tool_calls: calls_made(raw),
                raw_content: match json::get(raw, "content"@) {
                    Some(c) => c,
                    None => JsonView::Null,
                },
            },
        )
    }
}

/// What came of a request, as contracts speak of it.
pub open spec fn outcome(r: Result<Completion, LlmError>) -> Result<CompletionView, LlmErrorView> {
    match r {
        Ok(c) => Ok(c@),
        Err(e) => Err(e@),
    }
}

fn opt_copy(o: Option<&String>) -> (r: Option<String>)
    ensures
        match (r, o) {
            (Some(a), Some(b)) => a@ == b@,
            (None, None) => true,
            _ => false,
        },
{
    match o {
        Some(s) => Some(s.clone()),
        None => None,
    }
}

fn detail_of(raw: &Json, key: &str) -> (r: Option<String>)
    ensures
        text::opt_text(r) == stop_detail(raw@, key@),
{
    match raw.get("stop_details") {
        Some(d) => opt_copy(d.get_text(key)),
        None => None,
    }
}

fn has_kind(b: &Json, kind: &str) -> (r: bool)
    ensures
        r == (json::get_text(b@, "type"@) == Some(kind@)),
{
    match b.get_text("type") {
        Some(k) => text::same(k, kind),
        None => false,
    }
}

fn call_in(b: &Json) -> (r: Option<ToolCall>)
    ensures
        match r {
            Some(c) => call_of_block(b@) == Some(c@),
            None => call_of_block(b@) is None,
        },
{
    if !has_kind(b, "tool_use") {
        return None;
    }
    match (b.get_text("id"), b.get_text("name")) {
        (Some(id), Some(name)) => Some(
            ToolCall {
                id: id.clone(),
                name: name.clone(),
                input: match b.get("input") {
                    Some(v) => v.copy(),
                    None => Json::Null,
                },
            },
        ),
        _ => None,
    }
}

fn text_in(blocks: &Vec<Json>) -> (r: String)
    ensures
        r@ == text_of_blocks(json::trees(blocks@)),
{
    let ghost all = json::trees(blocks@);
    let mut s = String::new();
    let mut i: usize = 0;
    assert(all.take(0) =~= Seq::<JsonView>::empty());
    while i < blocks.len()
        invariant
            i <= blocks@.len(),
            all == json::trees(blocks@),
            s@ == text_of_blocks(all.take(i as int)),
        decreases blocks@.len() - i,
    {
        assert(all.take(i + 1).drop_last() =~= all.take(i as int));
        assert(all.take(i + 1).last() == blocks@[i as int]@);
        if has_kind(&blocks[i], "text") {
            s.append(&blocks[i].get_text_or_empty("text"));
        }
        i = i + 1;
    }
    assert(all.take(blocks@.len() as int) =~= all);
    s
}

fn calls_in(blocks: &Vec<Json>) -> (r: Vec<ToolCall>)
    ensures
        call_views(r@) == calls_of_blocks(json::trees(blocks@)),
{
    let ghost all = json::trees(blocks@);
    let mut out: Vec<ToolCall> = Vec::new();
    let mut i: usize = 0;
    assert(all.take(0) =~= Seq::<JsonView>::empty());
    assert(call_views(out@) =~= Seq::<ToolCallView>::empty());
    while i < blocks.len()
        invariant
            i <= blocks@.len(),
            all == json::trees(blocks@),
            call_views(out@) == calls_of_blocks(all.take(i as int)),
        decreases blocks@.len() - i,
    {
        assert(all.take(i + 1).drop_last() =~= all.take(i as int));
        assert(all.take(i + 1).last() == blocks@[i as int]@);
        match call_in(&blocks[i]) {
            Some(c) => {
                let ghost before = call_views(out@);
                out.push(c);
                assert(call_views(out@) =~= before.push(c@));
            },
            None => {},
        }
        i = i + 1;
    }
    assert(all.take(blocks@.len() as int) =~= all);
    out
}

/// What a response means.
pub fn interpret(raw: &Json) -> (r: Result<Completion, LlmError>)
    ensures
        outcome(r) == meaning(raw@),
{
    let reason = opt_copy(raw.get_text("stop_reason"));
    let mut for_tools = false;
    match &reason {
        Some(s) => {
            if text::same(s, "refusal") {
                return Err(
                    LlmError::Refused {
                        category: detail_of(raw, "category"),
                        explanation: detail_of(raw, "explanation"),
                    },
                );
            }
            if text::same(s, "max_tokens") {
                return Err(LlmError::Truncated);
            }
            for_tools = text::same(s, "tool_use");
        },
        None => {},
    }
    let none: Vec<Json> = Vec::new();
    let blocks = match raw.get_items("content") {
        Some(v) => v,
        None => &none,
    };
    assert(json::trees(blocks@) =~= json::get_items(raw@, "content"@));
    let calls = if for_tools {
        calls_in(blocks)
    } else {
        Vec::new()
    };
    assert(call_views(calls@) =~= calls_made(raw@));
    assert(call_views(calls@).len() == calls@.len());
    if for_tools && calls.len() == 0 {
        return Err(
            LlmError::Decode("the response stops for tools but holds no tool call".to_owned()),
        );
    }
    Ok(
        Completion {
            text: text_in(blocks),
            usage: usage_of(raw),
            model: raw.get_text_or_empty("model"),
            stop_reason: reason,
            tool_calls: calls,
            raw_content: match raw.get("content") {
                Some(c) => c.copy(),
                None => Json::Null,
            },
        },
    )
}

/// What came back over the wire.
#[derive(Debug)]
pub enum Response {
    /// The body of a response, and whether it has the shape of one.
    Body(String, Result<(), String>),
    /// The server answered with a status that reports an error.
    Status(u16),
    /// The request failed before there was a response.
    Failed(String),
    /// The body could not be read.
    Unreadable(String),
}

/// What is said of a status that reports an error.
pub const STATUS_HINT: &'static str =
    "check the model id and that every parameter is supported on it (effort is not accepted on Haiku 4.5)";

/// What a response means, given what its body parses to.
pub open spec fn reading(
    response: Response,
    parsed: Result<JsonView, Seq<char>>,
) -> Result<CompletionView, LlmErrorView> {
    match response {
        Response::Status(status) => Err(LlmErrorView::Http(status, STATUS_HINT@)),
        Response::Failed(e) => Err(LlmErrorView::Transport(e@)),
        Response::Unreadable(e) => Err(LlmErrorView::Decode(e@)),
        Response::Body(_, shape) => match parsed {
            Err(e) => Err(LlmErrorView::Decode(e)),
            Ok(raw) => match shape {
                Err(e) => Err(LlmErrorView::Decode(e@)),
                Ok(_) => meaning(raw),
            },
        },
    }
}

/// The body of a response; empty if there is none.
pub open spec fn body_of(response: Response) -> Seq<char> {
    match response {
        Response::Body(body, _) => body@,
        _ => Seq::empty(),
    }
}

pub struct Client {
    cfg: Config,
}

impl Client {
    pub closed spec fn config(self) -> Config {
        self.cfg
    }

    pub fn new(cfg: Config) -> (r: Client)
        ensures
            r.config() == cfg,
    {
        Client { cfg }
    }

    pub fn model(&self) -> (r: &str)
        ensures
            r@ == self.config().model@,
    {
        self.cfg.model.as_str()
    }

    /// Where requests go.
    pub fn url(&self) -> (r: &str)
        ensures
            r@ == self.config().base_url@,
    {
        self.cfg.base_url.as_str()
    }

    /// Seconds until a request is given up.
    pub fn timeout(&self) -> (r: u64)
        ensures
            r == self.config().timeout,
    {
        self.cfg.timeout
    }

    /// The headers of a request: content type, key and version.
    pub fn headers(&self) -> (r: Vec<(String, String)>)
        ensures
            r@.len() == 3,
            r@[0].0@ == "content-type"@ && r@[0].1@ == "application/json"@,
            r@[1].0@ == "x-api-key"@ && r@[1].1@ == self.config().api_key@,
            r@[2].0@ == "anthropic-version"@ && r@[2].1@ == API_VERSION@,
    {
        let mut v: Vec<(String, String)> = Vec::new();
        v.push(("content-type".to_owned(), "application/json".to_owned()));
        v.push(("x-api-key".to_owned(), self.cfg.api_key.clone()));
        v.push(("anthropic-version".to_owned(), API_VERSION.to_owned()));
        v
    }

    /// The body of one request.
    ///
    /// `system` is sent as a cacheable block: it is identical across every turn
    /// of a session, so after the first call it bills at cache-read rates.
    pub fn request(
        &self,
        system: &str,
        messages: &[Message],
        tools: Option<&[Tool]>,
        schema: Option<Json>,
    ) -> (r: Json)
        ensures
            r@ == request_body(
                self.config(),
                system@,
                turns(messages@),
                opt_tool_views(tools),
                json::opt_tree(schema),
            ),
    {
        let ghost sent: Option<Seq<ToolView>> = opt_tool_views(tools);
        let ghost wanted: Option<JsonView> = json::opt_tree(schema);
        let ghost body = request_body(self.cfg, system@, turns(messages@), sent, wanted);
        let mut r = Json::object().with_text("model", &self.cfg.model).with(
            "max_tokens",
            Json::Unsigned(self.cfg.max_tokens as u64),
        ).with("system", system_value(system)).with("messages", messages_value(messages));
        match tools {
            Some(t) => {
                r = r.with("tools", tools_value(t));
            },
            None => {},
        }
        if self.cfg.effort.is_some() || schema.is_some() {
            let mut o = Json::object();
            match &self.cfg.effort {
                Some(e) => {
                    o = o.with_text("effort", e);
                },
                None => {},
            }
            match schema {
                Some(s) => {
                    let f = Json::object().with_text("type", "json_schema").with("schema", s);
                    assert(f@->Object_0 =~= seq![
                        ("type"@, JsonView::Text("json_schema"@)),
                        ("schema"@, wanted->0),
                    ]);
                    o = o.with("format", f);
                },
                None => {},
            }
            assert(o@->Object_0 =~= output_config(
                text::opt_text(self.cfg.effort),
                wanted,
            )->Object_0);
            r = r.with("output_config", o);
        }
        assert(r@->Object_0 =~= body->Object_0);
        r
    }

    /// The body of one request, as it goes over the wire.
    pub fn request_text(
        &self,
        system: &str,
        messages: &[Message],
        tools: Option<&[Tool]>,
        schema: Option<Json>,
    ) -> (r: String)
        ensures
            r@ == json::json_text(
                request_body(
                    self.config(),
                    system@,
                    turns(messages@),
                    opt_tool_views(tools),
                    json::opt_tree(schema),
                ),
            ),
    {
        json::text_of(&self.request(system, messages, tools, schema))
    }

    /// What came of one request: the assistant turn, with any tool calls, or why
    /// there is none.
    pub fn complete(&self, response: Response) -> (r: Result<Completion, LlmError>)
        ensures
            outcome(r) == reading(response, json::parsed_json(body_of(response))),
    {
        match response {
            Response::Status(status) => Err(
                LlmError::Http { status, body: STATUS_HINT.to_owned() },
            ),
            Response::Failed(e) => Err(LlmError::Transport(e)),
            Response::Unreadable(e) => Err(LlmError::Decode(e)),
            Response::Body(body, shape) => {
                let raw = match json::parse(&body) {
                    Ok(raw) => raw,
                    Err(e) => {
                        return Err(LlmError::Decode(e));
                    },
                };
                match shape {
                    Ok(_) => interpret(&raw),
                    Err(e) => Err(LlmError::Decode(e)),
                }
            },
        }
    }
}

// ---------------------------------------------------------------------- laws

/// A refusal is reported as one whatever the content holds, and so is a reply
/// that was cut off: both are decided before content is read.
pub proof fn law_stop_reason_is_read_first(raw: JsonView)
    ensures
        stop_reason(raw) == Some("refusal"@) ==> meaning(raw) == Err::<CompletionView, LlmErrorView>(
            LlmErrorView::Refused(
                stop_detail(raw, "category"@),
                stop_detail(raw, "explanation"@),
            ),
        ),
        stop_reason(raw) == Some("max_tokens"@) ==> meaning(raw) == Err::<
            CompletionView,
            LlmErrorView,
        >(LlmErrorView::Truncated),
        meaning(raw) is Ok <==> stop_reason(raw) != Some("refusal"@) && stop_reason(raw) != Some(
            "max_tokens"@,
        ) && (stops_for_tools(raw) ==> calls_made(raw).len() > 0),
{
    reveal_strlit("refusal");
    reveal_strlit("max_tokens");
    assert("refusal"@.len() != "max_tokens"@.len());
}

/// A turn holds tool calls exactly when it stopped for tools.
pub proof fn law_calls_come_with_a_stop_for_tools(raw: JsonView)
    ensures
        meaning(raw) matches Ok(c) ==> (c.tool_calls.len() > 0 <==> c.stop_reason == Some(
            "tool_use"@,
        )),
{
}

/// Dropping what a model does not accept is done once and for all, touches
/// nothing but the effort, and leaves no effort for a haiku model.
pub proof fn law_normalizing_is_idempotent(cfg: Config)
    ensures
        cfg.accepted().accepted() == cfg.accepted(),
        cfg.accepted() == (Config { effort: cfg.accepted().effort, ..cfg }),
        text::contains_text(cfg.model@, "haiku"@) ==> cfg.accepted().effort is None,
        !text::contains_text(cfg.model@, "haiku"@) ==> cfg.accepted() == cfg,
{
}

/// A request carries no sampling parameters: current models reject them.
pub proof fn law_no_sampling_parameters(
    cfg: Config,
    system: Seq<char>,
    messages: Seq<MessageView>,
    tools: Option<Seq<ToolView>>,
    schema: Option<JsonView>,
)
    ensures
        ({
            let body = request_body(cfg, system, messages, tools, schema);
            &&& json::get(body, "temperature"@) is None
            &&& json::get(body, "top_p"@) is None
            &&& json::get(body, "top_k"@) is None
        }),
{
    let fields = request_body(cfg, system, messages, tools, schema)->Object_0;
    reveal_strlit("model");
    reveal_strlit("max_tokens");
    reveal_strlit("system");
    reveal_strlit("messages");
    reveal_strlit("tools");
    reveal_strlit("output_config");
    reveal_strlit("temperature");
    reveal_strlit("top_p");
    reveal_strlit("top_k");
    assert("model"@.len() == 5 && "model"@[0] == 'm');
    assert("max_tokens"@.len() == 10 && "system"@.len() == 6 && "messages"@.len() == 8);
    assert("tools"@.len() == 5 && "tools"@[2] == 'o' && "output_config"@.len() == 13);
    assert("temperature"@.len() == 11);
    assert("top_p"@.len() == 5 && "top_p"@[0] == 't' && "top_p"@[2] == 'p');
    assert("top_k"@.len() == 5 && "top_k"@[0] == 't' && "top_k"@[2] == 'p');
    assert(fields[0].0 == "model"@ && fields[1].0 == "max_tokens"@);
    assert(fields[2].0 == "system"@ && fields[3].0 == "messages"@);
    assert(fields.len() <= 6);
    assert(fields.len() > 4 ==> fields[4].0 == "tools"@ || fields[4].0 == "output_config"@);
    assert(fields.len() > 5 ==> fields[5].0 == "output_config"@);
    json::lemma_field_absent(fields, "temperature"@);
    json::lemma_field_absent(fields, "top_p"@);
    json::lemma_field_absent(fields, "top_k"@);
}

/// Every block that asks for a tool by id and name becomes a call, in order,
/// and nothing else does.
pub proof fn law_calls_follow_the_blocks(a: Seq<JsonView>, b: Seq<JsonView>)
    ensures
        calls_of_blocks(a + b) == calls_of_blocks(a) + calls_of_blocks(b),
    decreases b.len(),
{
    if b.len() == 0 {
        assert(a + b =~= a);
        assert(calls_of_blocks(a) + calls_of_blocks(b) =~= calls_of_blocks(a));
    } else {
        law_calls_follow_the_blocks(a, b.drop_last());
        assert((a + b).drop_last() =~= a + b.drop_last());
        assert((a + b).last() == b.last());
        match call_of_block(b.last()) {
            Some(c) => {
                assert((calls_of_blocks(a) + calls_of_blocks(b.drop_last())).push(c)
                    =~= calls_of_blocks(a) + calls_of_blocks(b.drop_last()).push(c));
            },
            None => {},
        }
    }
}

/// The usage of a completion is what the reply reports: each of the four token
/// counts that stands there as a number of 32 bits is taken over under its own
/// name, and each that does not is none.
pub proof fn law_usage_is_what_the_reply_reports(raw: JsonView, n: u64)
    requires
        n <= u32::MAX,
        meaning(raw) is Ok,
    ensures
        ({
            let u = meaning(raw)->Ok_0.usage;
            &&& json::get(raw, "usage"@) matches Some(told) ==> {
                &&& json::get(told, "input_tokens"@) == Some(JsonView::Unsigned(n))
                    ==> u.input_tokens == n
                &&& json::get(told, "output_tokens"@) == Some(JsonView::Unsigned(n))
                    ==> u.output_tokens == n
                &&& json::get(told, "cache_read_input_tokens"@) == Some(JsonView::Unsigned(n))
                    ==> u.cache_read_input_tokens == n
                &&& json::get(told, "cache_creation_input_tokens"@) == Some(JsonView::Unsigned(n))
                    ==> u.cache_creation_input_tokens == n
                &&& !(json::get(told, "input_tokens"@) matches Some(JsonView::Unsigned(_)))
                    ==> u.input_tokens == 0
                &&& !(json::get(told, "output_tokens"@) matches Some(JsonView::Unsigned(_)))
                    ==> u.output_tokens == 0
                &&& !(json::get(told, "cache_read_input_tokens"@) matches Some(
                    JsonView::Unsigned(_),
                )) ==> u.cache_read_input_tokens == 0
                &&& !(json::get(told, "cache_creation_input_tokens"@) matches Some(
                    JsonView::Unsigned(_),
                )) ==> u.cache_creation_input_tokens == 0
            }
            &&& json::get(raw, "usage"@) is None ==> u.input_tokens == 0 && u.output_tokens == 0
                && u.cache_read_input_tokens == 0 && u.cache_creation_input_tokens == 0
        }),
{
}

/// A reply whose usage holds the four counts as fields, in whatever order and
/// among whatever others, gives a completion that holds the same four.
pub proof fn law_usage_fields_are_taken_over(
    raw: JsonView,
    fields: Seq<(Seq<char>, JsonView)>,
    i: int,
    n: u64,
)
    requires
        meaning(raw) is Ok,
        json::get(raw, "usage"@) == Some(JsonView::Object(fields)),
        0 <= i < fields.len(),
        fields[i].1 == JsonView::Unsigned(n),
        n <= u32::MAX,
        forall|j: int| i < j < fields.len() ==> (#[trigger] fields[j]).0 != fields[i].0,
    ensures
        ({
            let u = meaning(raw)->Ok_0.usage;
            let key = fields[i].0;
            &&& key == "input_tokens"@ ==> u.input_tokens == n
            &&& key == "output_tokens"@ ==> u.output_tokens == n
            &&& key == "cache_read_input_tokens"@ ==> u.cache_read_input_tokens == n
            &&& key == "cache_creation_input_tokens"@ ==> u.cache_creation_input_tokens == n
        }),
{
    json::law_last_value_of_a_key_counts(fields, fields[i].0, i);
    law_usage_is_what_the_reply_reports(raw, n);
}

/// A completion takes model, stop reason and content over from the reply, and
/// its text is that of the content's text blocks.
pub proof fn law_completion_is_what_the_reply_says(
    raw: JsonView,
    model: Seq<char>,
    blocks: Seq<JsonView>,
)
    requires
        meaning(raw) is Ok,
    ensures
        ({
            let c = meaning(raw)->Ok_0;
            &&& json::get(raw, "model"@) == Some(JsonView::Text(model)) ==> c.model == model
            &&& c.stop_reason == match json::get(raw, "stop_reason"@) {
                Some(JsonView::Text(t)) => Some(t),
                _ => None,
            }
            &&& json::get(raw, "content"@) == Some(JsonView::Array(blocks)) ==> c.raw_content
                == JsonView::Array(blocks) && c.text == text_of_blocks(blocks)
            &&& json::get(raw, "content"@) == Some(JsonView::Array(blocks)) && json::get(
                raw,
                "stop_reason"@,
            ) == Some(JsonView::Text("tool_use"@)) ==> c.tool_calls == calls_of_blocks(blocks)
        }),
{
}

/// A refusal tells the category and the explanation that the reply gives.
pub proof fn law_refusal_tells_its_reason(raw: JsonView, details: JsonView)
    requires
        json::get(raw, "stop_reason"@) == Some(JsonView::Text("refusal"@)),
    ensures
        json::get(raw, "stop_details"@) == Some(details) ==> meaning(raw) == Err::<
            CompletionView,
            LlmErrorView,
        >(
            LlmErrorView::Refused(
                json::get_text(details, "category"@),
                json::get_text(details, "explanation"@),
            ),
        ),
        json::get(raw, "stop_details"@) is None ==> meaning(raw) == Err::<
            CompletionView,
            LlmErrorView,
        >(LlmErrorView::Refused(None, None)),
{
}

/// The text of a reply is that of its text blocks one after another; other
/// blocks add nothing.
pub proof fn law_text_follows_the_blocks(a: Seq<JsonView>, b: Seq<JsonView>, t: Seq<char>)
    ensures
        text_of_blocks(Seq::empty()) == Seq::<char>::empty(),
        a.len() == 1 && json::get(a[0], "type"@) == Some(JsonView::Text("text"@)) && json::get(
            a[0],
            "text"@,
        ) == Some(JsonView::Text(t)) ==> text_of_blocks(a) == t,
        a.len() == 1 && json::get(a[0], "type"@) != Some(JsonView::Text("text"@))
            ==> text_of_blocks(a) == Seq::<char>::empty(),
        text_of_blocks(a + b) == text_of_blocks(a) + text_of_blocks(b),
    decreases b.len(),
{
    let none = Seq::<char>::empty();
    if a.len() == 1 {
        assert(a.drop_last() =~= Seq::<JsonView>::empty());
        assert(text_of_blocks(a.drop_last()) =~= none);
        assert(none + t =~= t);
    }
    if b.len() == 0 {
        assert(a + b =~= a);
        assert(text_of_blocks(a) + text_of_blocks(b) =~= text_of_blocks(a));
    } else {
        law_text_follows_the_blocks(a, b.drop_last(), t);
        assert((a + b).drop_last() =~= a + b.drop_last());
        assert((a + b).last() == b.last());
        assert(text_of_blocks(a + b) =~= text_of_blocks(a) + text_of_blocks(b));
    }
}

/// A block that asks for a tool gives a call with its id, its name and its
/// input; a block of another type, or without id or name, gives none.
pub proof fn law_call_carries_id_name_and_input(
    block: JsonView,
    id: Seq<char>,
    name: Seq<char>,
    input: JsonView,
)
    ensures
        json::get(block, "type"@) == Some(JsonView::Text("tool_use"@)) && json::get(block, "id"@)
            == Some(JsonView::Text(id)) && json::get(block, "name"@) == Some(JsonView::Text(name))
            && json::get(block, "input"@) == Some(input) ==> calls_of_blocks(seq![block]) == seq![
            ToolCallView { id, name, input },
        ],
        json::get(block, "type"@) != Some(JsonView::Text("tool_use"@)) || !(json::get(block, "id"@)
            matches Some(JsonView::Text(_))) || !(json::get(block, "name"@) matches Some(
            JsonView::Text(_),
        )) ==> calls_of_blocks(seq![block]).len() == 0,
{
    let one = seq![block];
    let none = Seq::<ToolCallView>::empty();
    assert(one.drop_last() =~= Seq::<JsonView>::empty());
    assert(calls_of_blocks(one.drop_last()) =~= none);
    if let Some(c) = call_of_block(block) {
        assert(none.push(c) =~= seq![c]);
    }
}

proof fn lemma_body_keys()
    ensures
        "model"@.len() == 5 && "model"@[0] == 'm',
        "max_tokens"@.len() == 10,
        "system"@.len() == 6,
        "messages"@.len() == 8,
        "tools"@.len() == 5 && "tools"@[0] == 't',
        "output_config"@.len() == 13,
{
    reveal_strlit("model");
    reveal_strlit("max_tokens");
    reveal_strlit("system");
    reveal_strlit("messages");
    reveal_strlit("tools");
    reveal_strlit("output_config");
}

/// A request carries what it was made of: the model, the ceiling on output, the
/// system text, every message and every tool in order, and the effort and the
/// schema of the reply where there are any.
pub proof fn law_request_carries_what_was_given(
    cfg: Config,
    system: Seq<char>,
    messages: Seq<MessageView>,
    tools: Option<Seq<ToolView>>,
    schema: Option<JsonView>,
    i: int,
)
    ensures
        ({
            let body = request_body(cfg, system, messages, tools, schema);
            &&& json::get(body, "model"@) == Some(JsonView::Text(cfg.model@))
            &&& json::get(body, "max_tokens"@) == Some(JsonView::Unsigned(cfg.max_tokens as u64))
            &&& json::get_items(body, "messages"@).len() == messages.len()
            &&& 0 <= i < messages.len() ==> {
                let m = json::get_items(body, "messages"@)[i];
                &&& json::get(m, "role"@) == Some(JsonView::Text(messages[i].role))
                &&& json::get(m, "content"@) == Some(messages[i].content)
            }
            &&& tools is None ==> json::get(body, "tools"@) is None
            &&& tools matches Some(all) ==> {
                &&& json::get(body, "tools"@) is Some
                &&& json::get_items(body, "tools"@).len() == all.len()
                &&& 0 <= i < all.len() ==> {
                    let t = json::get_items(body, "tools"@)[i];
                    &&& json::get(t, "name"@) == Some(JsonView::Text(all[i].name))
                    &&& json::get(t, "description"@) == Some(JsonView::Text(all[i].description))
                    &&& json::get(t, "input_schema"@) == Some(all[i].input_schema)
                }
            }
        }),
{
    lemma_body_keys();
    let fields = request_body(cfg, system, messages, tools, schema)->Object_0;
    let list = JsonView::Array(messages.map_values(|m: MessageView| message_block(m)));
    assert(fields[0].0 == "model"@ && fields[1].0 == "max_tokens"@);
    assert(fields[2].0 == "system"@ && fields[3].0 == "messages"@);
    assert(fields[3].1 == list);
    assert(fields.len() <= 6);
    assert(fields.len() > 4 ==> fields[4].0 == "tools"@ || fields[4].0 == "output_config"@);
    assert(fields.len() > 5 ==> fields[5].0 == "output_config"@);
    json::law_last_value_of_a_key_counts(fields, "model"@, 0);
    json::law_last_value_of_a_key_counts(fields, "max_tokens"@, 1);
    json::law_last_value_of_a_key_counts(fields, "messages"@, 3);
    json::law_last_value_of_a_key_counts(fields, "tools"@, 4);
    if 0 <= i < messages.len() {
        lemma_message_block(messages[i]);
    }
    if let Some(all) = tools {
        let offer = JsonView::Array(all.map_values(|t: ToolView| tool_block(t)));
        assert(fields[4] == ("tools"@, offer));
        if 0 <= i < all.len() {
            lemma_tool_block(all[i]);
        }
    } else {
        assert(fields.len() <= 5);
        assert(fields.len() > 4 ==> fields[4].0 == "output_config"@);
    }
}

proof fn lemma_message_block(m: MessageView)
    ensures
        json::get(message_block(m), "role"@) == Some(JsonView::Text(m.role)),
        json::get(message_block(m), "content"@) == Some(m.content),
{
    reveal_strlit("role");
    reveal_strlit("content");
    assert("role"@.len() != "content"@.len());
    let f = message_block(m)->Object_0;
    assert(f[0].0 == "role"@ && f[1].0 == "content"@);
    json::law_last_value_of_a_key_counts(f, "role"@, 0);
    json::law_last_value_of_a_key_counts(f, "content"@, 1);
}

proof fn lemma_tool_block(t: ToolView)
    ensures
        json::get(tool_block(t), "name"@) == Some(JsonView::Text(t.name)),
        json::get(tool_block(t), "description"@) == Some(JsonView::Text(t.description)),
        json::get(tool_block(t), "input_schema"@) == Some(t.input_schema),
{
    reveal_strlit("name");
    reveal_strlit("description");
    reveal_strlit("input_schema");
    assert("name"@.len() == 4 && "description"@.len() == 11 && "input_schema"@.len() == 12);
    let f = tool_block(t)->Object_0;
    assert(f[0].0 == "name"@ && f[1].0 == "description"@ && f[2].0 == "input_schema"@);
    json::law_last_value_of_a_key_counts(f, "name"@, 0);
    json::law_last_value_of_a_key_counts(f, "description"@, 1);
    json::law_last_value_of_a_key_counts(f, "input_schema"@, 2);
}

/// The system text of a request is a single text block, marked to be cached.
pub proof fn law_system_text_is_cached(
    cfg: Config,
    system: Seq<char>,
    messages: Seq<MessageView>,
    tools: Option<Seq<ToolView>>,
    schema: Option<JsonView>,
)
    ensures
        ({
            let blocks = json::get_items(
                request_body(cfg, system, messages, tools, schema),
                "system"@,
            );
            &&& blocks.len() == 1
            &&& json::get(blocks[0], "type"@) == Some(JsonView::Text("text"@))
            &&& json::get(blocks[0], "text"@) == Some(JsonView::Text(system))
            &&& json::get(blocks[0], "cache_control"@) matches Some(c) && json::get(c, "type"@)
                == Some(JsonView::Text("ephemeral"@))
        }),
{
    lemma_body_keys();
    let fields = request_body(cfg, system, messages, tools, schema)->Object_0;
    assert(fields[2] == ("system"@, system_blocks(system)));
    assert(fields[3].0 == "messages"@);
    assert(fields.len() <= 6);
    assert(fields.len() > 4 ==> fields[4].0 == "tools"@ || fields[4].0 == "output_config"@);
    assert(fields.len() > 5 ==> fields[5].0 == "output_config"@);
    json::law_last_value_of_a_key_counts(fields, "system"@, 2);
    let block = system_blocks(system)->Array_0[0];
    reveal_strlit("type");
    reveal_strlit("text");
    reveal_strlit("cache_control");
    assert("type"@.len() == 4 && "type"@[1] == 'y' && "text"@.len() == 4 && "text"@[1] == 'e');
    assert("cache_control"@.len() == 13);
    let f = block->Object_0;
    assert(f[0].0 == "type"@ && f[1].0 == "text"@ && f[2].0 == "cache_control"@);
    json::law_last_value_of_a_key_counts(f, "type"@, 0);
    json::law_last_value_of_a_key_counts(f, "text"@, 1);
    json::law_last_value_of_a_key_counts(f, "cache_control"@, 2);
    let c = f[2].1->Object_0;
    assert(c[0].0 == "type"@);
    json::law_last_value_of_a_key_counts(c, "type"@, 0);
}

/// A request says how its reply is to be made exactly where there is an effort or
/// a schema: the effort under its name, and the schema as the format.
pub proof fn law_request_says_how_to_reply(
    cfg: Config,
    system: Seq<char>,
    messages: Seq<MessageView>,
    tools: Option<Seq<ToolView>>,
    schema: Option<JsonView>,
)
    ensures
        ({
            let how = json::get(
                request_body(cfg, system, messages, tools, schema),
                "output_config"@,
            );
            &&& how is Some <==> cfg.effort is Some || schema is Some
            &&& how matches Some(o) ==> {
                &&& cfg.effort matches Some(e) ==> json::get(o, "effort"@) == Some(
                    JsonView::Text(e@),
                )
                &&& cfg.effort is None ==> json::get(o, "effort"@) is None
                &&& schema is None ==> json::get(o, "format"@) is None
                &&& schema matches Some(s) ==> (json::get(o, "format"@) matches Some(f)
                    && json::get(f, "type"@) == Some(JsonView::Text("json_schema"@)) && json::get(
                    f,
                    "schema"@,
                ) == Some(s))
            }
        }),
{
    lemma_body_keys();
    let fields = request_body(cfg, system, messages, tools, schema)->Object_0;
    let o = output_config(text::opt_text(cfg.effort), schema);
    assert(fields[0].0 == "model"@ && fields[1].0 == "max_tokens"@);
    assert(fields[2].0 == "system"@ && fields[3].0 == "messages"@);
    assert(fields.len() <= 6);
    assert(tools is Some ==> fields[4].0 == "tools"@);
    if cfg.effort is Some || schema is Some {
        assert(fields[fields.len() - 1] == ("output_config"@, o));
        json::law_last_value_of_a_key_counts(fields, "output_config"@, fields.len() - 1);
    } else {
        json::law_last_value_of_a_key_counts(fields, "output_config"@, 0);
    }
    reveal_strlit("effort");
    reveal_strlit("format");
    reveal_strlit("type");
    reveal_strlit("schema");
    assert("effort"@[0] == 'e' && "format"@[0] == 'f');
    assert("type"@.len() == 4 && "schema"@.len() == 6);
    let f = o->Object_0;
    json::law_last_value_of_a_key_counts(f, "effort"@, 0);
    json::law_last_value_of_a_key_counts(f, "format"@, f.len() - 1);
    if let Some(s) = schema {
        let g = f[f.len() - 1].1->Object_0;
        assert(g[0].0 == "type"@ && g[1].0 == "schema"@);
        json::law_last_value_of_a_key_counts(g, "type"@, 0);
        json::law_last_value_of_a_key_counts(g, "schema"@, 1);
    }
}

/// The result of a tool goes back under the id of the call, with its text and
/// whether it is an error.
pub proof fn law_tool_result_answers_its_call(id: Seq<char>, content: Seq<char>, is_error: bool)
    ensures
        ({
            let r = tool_result(id, content, is_error);
            &&& json::get(r, "type"@) == Some(JsonView::Text("tool_result"@))
            &&& json::get(r, "tool_use_id"@) == Some(JsonView::Text(id))
            &&& json::get(r, "content"@) == Some(JsonView::Text(content))
            &&& json::get(r, "is_error"@) == Some(JsonView::Bool(is_error))
        }),
{
    reveal_strlit("type");
    reveal_strlit("tool_use_id");
    reveal_strlit("content");
    reveal_strlit("is_error");
    assert("type"@.len() == 4 && "tool_use_id"@.len() == 11 && "content"@.len() == 7
        && "is_error"@.len() == 8);
    let f = tool_result(id, content, is_error)->Object_0;
    assert(f[0].0 == "type"@ && f[1].0 == "tool_use_id"@ && f[2].0 == "content"@ && f[3].0
        == "is_error"@);
    json::law_last_value_of_a_key_counts(f, "type"@, 0);
    json::law_last_value_of_a_key_counts(f, "tool_use_id"@, 1);
    json::law_last_value_of_a_key_counts(f, "content"@, 2);
    json::law_last_value_of_a_key_counts(f, "is_error"@, 3);
}

/// An error says what went wrong: the category and the explanation of a refusal
/// as far as there are any, the status and the body of a reply that is no
/// success, and what the transport or the decoder said.
pub proof fn law_errors_say_what_went_wrong(
    category: Seq<char>,
    explanation: Seq<char>,
    status: u16,
)
    ensures
        LlmErrorView::Refused(None, None).words() == "request was declined"@,
        LlmErrorView::Refused(Some(category), None).words() == "request was declined"@ + (" ("@
            + category + ")"@),
        LlmErrorView::Refused(None, Some(explanation)).words() == "request was declined"@ + (": "@
            + explanation),
        LlmErrorView::Refused(Some(category), Some(explanation)).words()
            == "request was declined"@ + (" ("@ + category + ")"@ + (": "@ + explanation)),
        LlmErrorView::Http(status, explanation).words() == "api returned "@ + text::decimal(
            status as nat,
        ) + ": "@ + explanation,
        LlmErrorView::Transport(explanation).words() == "transport error: "@ + explanation,
        LlmErrorView::Decode(explanation).words() == "could not decode response: "@ + explanation,
        LlmErrorView::Refused(Some(category), Some(explanation)).run_words()
            == "the model declined this request"@ + (" ("@ + category + ")"@ + (": "@
            + explanation)),
{
    let none = Seq::<char>::empty();
    let c = " ("@ + category + ")"@;
    let e = ": "@ + explanation;
    assert("request was declined"@ + (none + none) =~= "request was declined"@);
    assert(c + none =~= c);
    assert(none + e =~= e);
}

/// A reply is read only where there is one: a status that is no success, a
/// failed transport and an unreadable body are each reported as what they are,
/// and a body that does not parse is not interpreted.
pub proof fn law_only_a_good_reply_is_interpreted(
    response: Response,
    parsed: Result<JsonView, Seq<char>>,
)
    ensures
        response matches Response::Status(status) ==> (reading(response, parsed) matches Err(
            LlmErrorView::Http(s, _),
        ) && s == status),
        response matches Response::Failed(e) ==> reading(response, parsed) == Err::<
            CompletionView,
            LlmErrorView,
        >(LlmErrorView::Transport(e@)),
        response matches Response::Unreadable(e) ==> reading(response, parsed) == Err::<
            CompletionView,
            LlmErrorView,
        >(LlmErrorView::Decode(e@)),
        response is Body && parsed is Err ==> reading(response, parsed) == Err::<
            CompletionView,
            LlmErrorView,
        >(LlmErrorView::Decode(parsed->Err_0)),
        response matches Response::Body(_, Ok(_)) ==> (parsed matches Ok(raw) ==> reading(
            response,
            parsed,
        ) == meaning(raw)),
        response matches Response::Body(_, Err(e)) ==> (parsed is Ok ==> reading(response, parsed)
            == Err::<CompletionView, LlmErrorView>(LlmErrorView::Decode(e@))),
{
}

/// What contracts say of messages, tools, calls, completions and errors is what
/// they hold, field by field.
pub proof fn law_turns_are_read_as_they_are(
    m: Message,
    t: Tool,
    c: ToolCall,
    r: Completion,
    body: String,
    status: u16,
    shape: Result<(), String>,
)
    ensures
        m@.role == m.role@ && m@.content == m.content@,
        t@.name == t.name@ && t@.description == t.description@ && t@.input_schema
            == t.input_schema@,
        c@.id == c.id@ && c@.name == c.name@ && c@.input == c.input@,
        r@.text == r.text@ && r@.usage == r.usage && r@.model == r.model@ && r@.raw_content
            == r.raw_content@,
        r@.stop_reason == text::opt_text(r.stop_reason),
        r@.tool_calls.len() == r.tool_calls@.len(),
        forall|i: int|
            0 <= i < r.tool_calls@.len() ==> #[trigger] r@.tool_calls[i] == r.tool_calls@[i]@,
        LlmError::Truncated@ == LlmErrorView::Truncated,
        (LlmError::Http { status, body })@ == LlmErrorView::Http(status, body@),
        LlmError::Transport(body)@ == LlmErrorView::Transport(body@),
        LlmError::Decode(body)@ == LlmErrorView::Decode(body@),
        (LlmError::Refused { category: Some(body), explanation: None })@ == LlmErrorView::Refused(
            Some(body@),
            None,
        ),
        (LlmError::Refused { category: None, explanation: Some(body) })@ == LlmErrorView::Refused(
            None,
            Some(body@),
        ),
        body_of(Response::Body(body, shape)) == body@,
{
}

/// Lists of messages, tools and calls are read item by item, and an outcome as
/// what it holds.
pub proof fn law_lists_of_turns_are_read_in_order(
    m: Seq<Message>,
    t: Seq<Tool>,
    c: Seq<ToolCall>,
    i: int,
    r: Result<Completion, LlmError>,
)
    ensures
        turns(m).len() == m.len() && (0 <= i < m.len() ==> turns(m)[i] == m[i]@),
        tool_views(t).len() == t.len() && (0 <= i < t.len() ==> tool_views(t)[i] == t[i]@),
        call_views(c).len() == c.len() && (0 <= i < c.len() ==> call_views(c)[i] == c[i]@),
        r matches Ok(x) ==> outcome(r) == Ok::<CompletionView, LlmErrorView>(x@),
        r matches Err(e) ==> outcome(r) == Err::<CompletionView, LlmErrorView>(e@),
{
}

/// A reply that stops for tools without asking for one is none, and a reply that
/// was cut off says how to get a whole one.
pub proof fn law_replies_that_are_none(raw: JsonView, blocks: Seq<JsonView>)
    ensures
        json::get(raw, "stop_reason"@) == Some(JsonView::Text("tool_use"@)) && json::get(
            raw,
            "content"@,
        ) == Some(JsonView::Array(blocks)) && calls_of_blocks(blocks).len() == 0 ==> meaning(raw)
            == Err::<CompletionView, LlmErrorView>(
            LlmErrorView::Decode("the response stops for tools but holds no tool call"@),
        ),
        LlmErrorView::Truncated.words()
            == "response hit max_tokens and is truncated; raise max_tokens or lower effort"@,
        LlmErrorView::Truncated.run_words() == LlmErrorView::Truncated.words(),
{
    reveal_strlit("tool_use");
    reveal_strlit("refusal");
    reveal_strlit("max_tokens");
    assert("tool_use"@.len() == 8 && "refusal"@.len() == 7 && "max_tokens"@.len() == 10);
}

} // verus!
