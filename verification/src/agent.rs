//! The agent loop: the model drives, using tools.
//!
//! Instead of pre-computing a context pack and asking for one body back, the
//! model is given tools and decides what it needs, so the compression stops
//! being a fixed policy and becomes something the model negotiates: it starts
//! from a map of labels and descriptions and pulls in a body only when it
//! decides that description was not enough.
//!
//! A [`Session`] holds the conversation and the spend. The caller talks to the
//! API and carries out the tool calls; the session says when to go on, what to
//! send, and what the run came to. Nothing is written to disk: the caller
//! decides whether to persist the result.

use crate::bench;
use crate::budget;
use crate::budget::{Guard, LimitHit, Spend};
use crate::dispatch;
use crate::dispatch::{Output, Workspace};
use crate::gate;
use crate::json;
use crate::json::{Json, JsonView};
use crate::llm;
use crate::llm::{
    Completion, CompletionView, LlmError, Message, MessageView, ToolCall, ToolCallView, Usage,
};
use crate::program::{Program, TestOutcome};
use crate::text;
use crate::toolset;
use vstd::prelude::*;

pub use crate::toolset::{tools, SYSTEM, SYSTEM_BASELINE};

verus! {

/// What the agent did, for display and for measurement.
pub struct AgentRun {
    /// The run completed without error. True even when no edit was needed.
    pub ok: bool,
    /// An edit was actually applied. Distinct from `ok`: a model that correctly
    /// reports the code already does what was asked has succeeded without
    /// editing.
    pub edited: bool,
    pub turns: usize,
    pub tool_calls: Vec<ToolRecord>,
    /// The final text the model wrote, after it stopped calling tools.
    pub summary: String,
    /// `Some` if the source changed. The caller decides whether to write it.
    pub source: Option<String>,
    pub spend: Spend,
    /// Tokens the whole file would have cost, for comparison.
    pub whole_file_tokens: usize,
}

/// One tool call that was carried out.
pub struct ToolRecord {
    pub turn: usize,
    pub name: String,
    pub input: Json,
    pub ok: bool,
    /// Truncated for display; the model saw the whole thing.
    pub result: String,
}

/// One tool call that was carried out, as contracts speak of it.
pub struct ToolRecordView {
    pub turn: nat,
    pub name: Seq<char>,
    pub input: JsonView,
    pub ok: bool,
    pub result: Seq<char>,
}

impl View for ToolRecord {
    type V = ToolRecordView;

    open spec fn view(&self) -> ToolRecordView {
        ToolRecordView {
            turn: self.turn as nat,
            name: self.name@,
            input: self.input@,
            ok: self.ok,
            result: self.result@,
        }
    }
}

/// The views of a list of records.
pub open spec fn record_views(v: Seq<ToolRecord>) -> Seq<ToolRecordView> {
    v.map_values(|r: ToolRecord| r@)
}

/// The views of a list of outputs.
pub open spec fn output_views(v: Seq<Output>) -> Seq<(Seq<char>, bool)> {
    v.map_values(|o: Output| o@)
}

/// Output tokens that a turn is reckoned with before it is made.
pub const TURN_OUTPUT: u32 = 4_000;

/// Output tokens that the whole-file arm is reckoned with.
pub const BASELINE_OUTPUT: u32 = 8_000;

/// Characters of a result that are kept for display.
pub const SHOWN: usize = 2_000;

/// The task, with the file named. Without it the model guesses, and calls
/// `read_file` on a directory.
pub open spec fn task_text(task: Seq<char>, file: Option<Seq<char>>) -> Seq<char> {
    task + "\n\n(The program is the file `"@ + text::or_else(file, "program.bkt"@)
        + "`. Prefer the bucket tools; read_file is a last resort.)"@
}

/// The goal, with the bucket that it is about where one was named. It is a hint:
/// otherwise the agent finds its own target.
pub open spec fn hinted(goal: Seq<char>, bucket: Option<Seq<char>>) -> Seq<char> {
    match bucket {
        Some(b) => goal + "\n\n(The relevant bucket is `"@ + b + "`.)"@,
        None => goal,
    }
}

pub fn with_hint(goal: &str, bucket: &Option<String>) -> (r: String)
    ensures
        r@ == hinted(goal@, text::opt_text(*bucket)),
{
    let mut s = goal.to_owned();
    match bucket {
        Some(b) => {
            s.append("\n\n(The relevant bucket is `");
            s.append(b);
            s.append("`.)");
        },
        None => {},
    }
    s
}

/// The size of a request in tokens; the largest count if it is larger still.
pub open spec fn projection(counts: Seq<usize>) -> u32 {
    if bench::sum(counts) <= u32::MAX {
        bench::sum(counts) as u32
    } else {
        u32::MAX
    }
}

/// The size of a request, from those of its parts: the system prompt and every
/// message.
pub fn project(counts: &Vec<usize>) -> (r: u32)
    ensures
        r == projection(counts@),
{
    let ghost all = counts@;
    let mut total: u32 = 0;
    let mut i: usize = 0;
    assert(all.take(0) =~= Seq::<usize>::empty());
    while i < counts.len()
        invariant
            i <= all.len(),
            all == counts@,
            total == projection(all.take(i as int)),
        decreases all.len() - i,
    {
        assert(all.take(i + 1).drop_last() =~= all.take(i as int));
        let room: u32 = u32::MAX - total;
        if counts[i] as u64 <= room as u64 {
            total = total + counts[i] as u32;
        } else {
            total = u32::MAX;
        }
        i = i + 1;
    }
    assert(all.take(all.len() as int) =~= all);
    total
}

// ------------------------------------------------------------------- session

/// A run of the agent.
pub struct Session {
    guard: Guard,
    messages: Vec<Message>,
    records: Vec<ToolRecord>,
    summary: String,
    turn: usize,
    max_turns: usize,
    whole_file_tokens: usize,
    /// Requests that were spent before the run.
    start: u32,
    /// A ceiling was crossed by the last call: there will be no other.
    over: bool,
    /// A request was admitted and its response has not been received.
    asked: bool,
    /// The model asked for tools and has not been answered.
    owing: bool,
    /// There will be no other turn.
    ended: bool,
}

/// A run of the agent, as contracts speak of it.
pub struct SessionView {
    pub guard: Guard,
    pub messages: Seq<MessageView>,
    pub records: Seq<ToolRecordView>,
    pub summary: Seq<char>,
    pub turn: nat,
    pub max_turns: nat,
    pub whole_file_tokens: nat,
    pub start: u32,
    pub over: bool,
    pub asked: bool,
    pub owing: bool,
    pub ended: bool,
}

impl SessionView {
    /// The spend adds up. Every request that was made, and the one that was
    /// admitted, took a turn of its own and is within the ceiling on requests; no
    /// more turns were taken than allowed. The conversation alternates between
    /// user and assistant: it ends with the assistant exactly when the model
    /// waits for the results of its calls.
    pub open spec fn wf(self) -> bool {
        &&& self.guard.wf()
        &&& self.turn <= self.max_turns
        &&& self.requests_made() <= self.start + self.turn
        &&& self.requests_made() > self.start ==> self.requests_made()
            <= self.guard.limits().max_requests
        &&& !(self.asked && self.owing)
        &&& self.ended ==> !self.asked && !self.owing
        &&& self.messages.len() > 0
        &&& self.owing == (self.messages.len() % 2 == 0)
        &&& forall|i: int|
            0 <= i < self.messages.len() ==> (#[trigger] self.messages[i]).role == if i % 2 == 0 {
                "user"@
            } else {
                "assistant"@
            }
    }

    /// The requests that were spent, with the one that was admitted and is still
    /// out.
    pub open spec fn requests_made(self) -> int {
        self.guard.spent().requests + if self.asked {
            1int
        } else {
            0int
        }
    }

    /// A turn can begin: nothing is out, nothing is owed, and the run has not
    /// ended.
    pub open spec fn can_begin(self) -> bool {
        !self.asked && !self.owing && !self.ended
    }
}

/// Whether the next turn is taken.
#[derive(Debug, Clone, Copy)]
pub enum Next {
    /// Send the request.
    Ask,
    /// The turns are used up.
    OutOfTurns,
    /// The request would cross a ceiling.
    Limit(LimitHit),
}

/// What to do with the model's turn.
pub enum Turn {
    /// The run failed.
    Failed(String),
    /// The model is done.
    Finished,
    /// Carry out the calls, in order, and answer all of them together.
    Calls(Vec<ToolCall>),
}

/// What to do with the model's turn, as contracts speak of it.
pub enum TurnView {
    Failed(Seq<char>),
    Finished,
    Calls(Seq<ToolCallView>),
}

impl View for Turn {
    type V = TurnView;

    open spec fn view(&self) -> TurnView {
        match self {
            Turn::Failed(e) => TurnView::Failed(e@),
            Turn::Finished => TurnView::Finished,
            Turn::Calls(v) => TurnView::Calls(llm::call_views(v@)),
        }
    }
}

/// Whether the next turn is taken. The ceilings are checked before the call is
/// paid for.
pub open spec fn next_turn(s: SessionView, projected: u32) -> Next {
    if s.turn >= s.max_turns {
        Next::OutOfTurns
    } else {
        match budget::admits(
            s.guard.limits(),
            s.guard.rates(),
            s.guard.spent(),
            projected,
            TURN_OUTPUT,
        ) {
            Ok(_) => Next::Ask,
            Err(l) => Next::Limit(l),
        }
    }
}

/// The session after it was decided whether the next turn is taken. A turn that
/// is not taken ends the run; one that a ceiling refused is counted.
pub open spec fn after_begin(s: SessionView, projected: u32) -> SessionView {
    let next = next_turn(s, projected);
    SessionView {
        turn: if next is OutOfTurns {
            s.turn
        } else {
            (s.turn + 1) as nat
        },
        asked: next is Ask,
        ended: !(next is Ask),
        ..s
    }
}

/// The guard after a call with that usage.
pub open spec fn spends(before: Guard, after: Guard, usage: Usage) -> bool {
    &&& after.limits() == before.limits()
    &&& after.rates() == before.rates()
    &&& after.spent() == before.spent().plus(usage, before.rates())
}

/// The model asks for tools.
pub open spec fn asks_for_tools(c: CompletionView) -> bool {
    c.stop_reason == Some("tool_use"@)
}

/// The session after the model's turn.
pub open spec fn after_turn(s: SessionView, c: CompletionView, guard: Guard) -> SessionView {
    SessionView {
        guard,
        over: budget::exceeded(guard.limits(), guard.spent()) is Err,
        summary: if text::trim(c.text).len() > 0 {
            text::trim(c.text)
        } else {
            s.summary
        },
        messages: if asks_for_tools(c) {
            s.messages.push(MessageView { role: "assistant"@, content: c.raw_content })
        } else {
            s.messages
        },
        asked: false,
        owing: asks_for_tools(c),
        ended: !asks_for_tools(c),
        ..s
    }
}

/// The blocks that answer some calls.
pub open spec fn results(calls: Seq<ToolCallView>, outputs: Seq<(Seq<char>, bool)>) -> Seq<JsonView> {
    Seq::new(
        calls.len(),
        |i: int| llm::tool_result(calls[i].id, outputs[i].0, outputs[i].1),
    )
}

/// The record of a call.
pub open spec fn record(turn: nat, call: ToolCallView, output: (Seq<char>, bool)) -> ToolRecordView {
    ToolRecordView {
        turn,
        name: call.name,
        input: call.input,
        ok: !output.1,
        result: if output.0.len() <= SHOWN {
            output.0
        } else {
            output.0.take(SHOWN as int)
        },
    }
}

/// The records of some calls.
pub open spec fn new_records(
    turn: nat,
    calls: Seq<ToolCallView>,
    outputs: Seq<(Seq<char>, bool)>,
) -> Seq<ToolRecordView> {
    Seq::new(calls.len(), |i: int| record(turn, calls[i], outputs[i]))
}

/// What is shown of an output on one line: the start of its first line.
pub open spec fn headline(output: Seq<char>) -> Seq<char> {
    let lines = text::lines(output);
    let first = if lines.len() > 0 {
        lines[0]
    } else {
        Seq::empty()
    };
    if first.len() <= 88 {
        first
    } else {
        first.take(88)
    }
}

pub fn headline_of(output: &str) -> (r: String)
    ensures
        r@ == headline(output@),
{
    let lines = text::lines_of(output);
    let ghost all = text::texts(lines@);
    assert(all.len() == lines@.len());
    if lines.len() == 0 {
        return String::new();
    }
    assert(all[0] == lines@[0]@);
    let v = text::chars_of(&lines[0]);
    if v.len() <= 88 {
        return lines[0].clone();
    }
    assert(v@.subrange(0, 88) =~= v@.take(88));
    text::string_of(&v, 0, 88)
}

/// The session after all calls of a turn were answered together. Splitting the
/// results across messages trains the model out of parallel calls.
pub open spec fn after_answers(
    s: SessionView,
    calls: Seq<ToolCallView>,
    outputs: Seq<(Seq<char>, bool)>,
) -> SessionView {
    SessionView {
        messages: s.messages.push(
            MessageView { role: "user"@, content: JsonView::Array(results(calls, outputs)) },
        ),
        records: s.records + new_records(s.turn, calls, outputs),
        owing: false,
        ended: s.over,
        ..s
    }
}

/// Start a run of the agent on a task.
pub fn run(
    guard: Guard,
    task: &str,
    file: &Option<String>,
    max_turns: usize,
    whole_file_tokens: usize,
) -> (r: Session)
    requires
        guard.wf(),
    ensures
        r@.wf(),
        r@ == (SessionView {
            guard,
            messages: seq![
                MessageView {
                    role: "user"@,
                    content: JsonView::Text(task_text(task@, text::opt_text(*file))),
                },
            ],
            records: Seq::empty(),
            summary: Seq::empty(),
            turn: 0,
            max_turns: max_turns as nat,
            whole_file_tokens: whole_file_tokens as nat,
            start: guard.spent().requests,
            over: false,
            asked: false,
            owing: false,
            ended: false,
        }),
{
    let mut s = task.to_owned();
    s.append("\n\n(The program is the file `");
    s.append(&text::text_or(file, "program.bkt"));
    s.append("`. Prefer the bucket tools; read_file is a last resort.)");
    let mut messages: Vec<Message> = Vec::new();
    messages.push(Message::user(&s));
    let start: u32 = guard.spend().requests;
    let r = Session {
        guard,
        messages,
        records: Vec::new(),
        summary: String::new(),
        turn: 0,
        max_turns,
        whole_file_tokens,
        start,
        over: false,
        asked: false,
        owing: false,
        ended: false,
    };
    assert(r@.messages =~= seq![
        MessageView {
            role: "user"@,
            content: JsonView::Text(task_text(task@, text::opt_text(*file))),
        },
    ]);
    assert(r@.records =~= Seq::<ToolRecordView>::empty());
    assert(r@.summary =~= Seq::<char>::empty());
    r
}

impl View for Session {
    type V = SessionView;

    closed spec fn view(&self) -> SessionView {
        SessionView {
            guard: self.guard,
            messages: llm::turns(self.messages@),
            records: record_views(self.records@),
            summary: self.summary@,
            turn: self.turn as nat,
            max_turns: self.max_turns as nat,
            whole_file_tokens: self.whole_file_tokens as nat,
            start: self.start,
            over: self.over,
            asked: self.asked,
            owing: self.owing,
            ended: self.ended,
        }
    }
}

impl Session {
    /// The conversation so far.
    pub fn messages(&self) -> (r: &Vec<Message>)
        ensures
            llm::turns(r@) == self@.messages,
    {
        &self.messages
    }

    pub fn spend(&self) -> (r: &Spend)
        ensures
            *r == self@.guard.spent(),
    {
        self.guard.spend()
    }

    pub fn turn(&self) -> (r: usize)
        ensures
            r == self@.turn,
    {
        self.turn
    }

    /// The content of every message as text, to be measured.
    pub fn message_texts(&self) -> (r: Vec<String>)
        ensures
            text::texts(r@) == self@.messages.map_values(
                |m: MessageView| json::json_text(m.content),
            ),
    {
        let ghost want = self@.messages.map_values(|m: MessageView| json::json_text(m.content));
        let mut out: Vec<String> = Vec::new();
        let mut i: usize = 0;
        while i < self.messages.len()
            invariant
                i <= self.messages@.len(),
                out@.len() == i,
                want == llm::turns(self.messages@).map_values(
                    |m: MessageView| json::json_text(m.content),
                ),
                forall|k: int| 0 <= k < i ==> (#[trigger] out@[k])@ == want[k],
            decreases self.messages@.len() - i,
        {
            out.push(json::text_of(&self.messages[i].content));
            i = i + 1;
        }
        assert(text::texts(out@) =~= want);
        out
    }

    /// Begin the next turn, if there is one. `projected` is the size of the
    /// request that it would send.
    pub fn begin(&mut self, projected: u32) -> (r: Next)
        requires
            old(self)@.wf(),
            old(self)@.can_begin(),
        ensures
            final(self)@.wf(),
            r == next_turn(old(self)@, projected),
            final(self)@ == after_begin(old(self)@, projected),
            final(self)@.asked == (r is Ask),
    {
        if self.turn >= self.max_turns {
            self.ended = true;
            return Next::OutOfTurns;
        }
        self.turn = self.turn + 1;
        match self.guard.check_before(projected, TURN_OUTPUT) {
            Ok(_) => {
                self.asked = true;
                Next::Ask
            },
            Err(l) => {
                self.ended = true;
                Next::Limit(l)
            },
        }
    }

    /// Whether the counters have room for one more response.
    pub fn has_room_for(&self, usage: &Usage) -> (r: bool)
        ensures
            r == self@.guard.spent().room_for(*usage),
    {
        self.guard.spend().has_room_for(usage)
    }

    /// Take the model's turn in, after a request that was admitted.
    pub fn receive(&mut self, completion: Result<Completion, LlmError>) -> (r: Turn)
        requires
            old(self)@.wf(),
            old(self)@.asked,
            match completion {
                Ok(c) => old(self)@.guard.spent().room_for(c.usage),
                Err(_) => true,
            },
        ensures
            final(self)@.wf(),
            match completion {
                Err(e) => {
                    &&& r@ == TurnView::Failed(e@.run_words())
                    &&& final(self)@ == (SessionView { asked: false, ended: true, ..old(self)@ })
                },
                Ok(c) => {
                    &&& spends(old(self)@.guard, final(self)@.guard, c.usage)
                    &&& final(self)@ == after_turn(old(self)@, c@, final(self)@.guard)
                    &&& r@ == if asks_for_tools(c@) {
                        TurnView::Calls(c@.tool_calls)
                    } else {
                        TurnView::Finished
                    }
                },
            },
    {
        self.asked = false;
        let c = match completion {
            Ok(c) => c,
            Err(e) => {
                self.ended = true;
                return Turn::Failed(e.describe_run());
            },
        };
        let ghost c_view = c@;
        self.over = self.guard.record(&c.usage).is_err();
        let said = text::trimmed(&c.text);
        if !said.as_str().is_empty() {
            self.summary = said;
        }
        if !c.wants_tools() {
            self.ended = true;
            return Turn::Finished;
        }
        self.messages.push(Message::assistant(c.raw_content));
        self.owing = true;
        assert(self@.messages =~= old(self)@.messages.push(
            MessageView { role: "assistant"@, content: c_view.raw_content },
        ));
        Turn::Calls(c.tool_calls)
    }

    /// Answer all calls of a turn together. Returns whether the run goes on:
    /// it does not once a ceiling was crossed.
    pub fn answer(&mut self, calls: Vec<ToolCall>, outputs: Vec<Output>) -> (r: bool)
        requires
            old(self)@.wf(),
            old(self)@.owing,
            calls@.len() == outputs@.len(),
        ensures
            final(self)@.wf(),
            final(self)@ == after_answers(
                old(self)@,
                llm::call_views(calls@),
                output_views(outputs@),
            ),
            r == !old(self)@.over,
    {
        let ghost cs = llm::call_views(calls@);
        let ghost os = output_views(outputs@);
        let ghost first = self@.records;
        let mut blocks: Vec<Json> = Vec::new();
        let turn: usize = self.turn;
        let mut i: usize = 0;
        assert(first + new_records(turn as nat, cs, os).take(0) =~= first);
        while i < calls.len()
            invariant
                i <= calls@.len(),
                calls@.len() == outputs@.len(),
                cs == llm::call_views(calls@),
                os == output_views(outputs@),
                turn == old(self)@.turn,
                blocks@.len() == i,
                forall|k: int| 0 <= k < i ==> (#[trigger] blocks@[k])@ == results(cs, os)[k],
                self@ == (SessionView {
                    records: first + new_records(turn as nat, cs, os).take(i as int),
                    ..old(self)@
                }),
            decreases calls@.len() - i,
        {
            let call = &calls[i];
            let output = &outputs[i];
            blocks.push(call.result(&output.text, output.is_error));
            let v = text::chars_of(&output.text);
            let shown = if v.len() > SHOWN {
                text::string_of(&v, 0, SHOWN)
            } else {
                output.text.clone()
            };
            let made = ToolRecord {
                turn,
                name: call.name.clone(),
                input: call.input.copy(),
                ok: !output.is_error,
                result: shown,
            };
            proof {
                assert(v@.subrange(0, SHOWN as int) =~= v@.take(SHOWN as int));
                assert(made@ == record(turn as nat, cs[i as int], os[i as int]));
            }
            let ghost before = self@.records;
            self.records.push(made);
            proof {
                let all = new_records(turn as nat, cs, os);
                assert(self@.records =~= before.push(made@));
                assert(all.take(i + 1) =~= all.take(i as int).push(made@));
                assert(self@.records =~= first + all.take(i + 1));
            }
            i = i + 1;
        }
        proof {
            let all = new_records(turn as nat, cs, os);
            assert(all.take(calls@.len() as int) =~= all);
            assert(json::trees(blocks@) =~= results(cs, os));
        }
        let message = Message::tool_results(blocks);
        let ghost said = self@.messages;
        self.messages.push(message);
        self.owing = false;
        self.ended = self.over;
        assert(self@.messages =~= said.push(message@));
        !self.over
    }

    /// What the run came to.
    pub fn finish(self, ws: Workspace) -> (r: AgentRun)
        requires
            self@.wf(),
        ensures
            r.ok,
            r.turns <= self@.max_turns,
            r.spend.requests <= self@.start + r.turns,
            r.spend.requests > self@.start ==> r.spend.requests
                <= self@.guard.limits().max_requests,
            r.edited == ws.changed(),
            r.turns == self@.turn,
            record_views(r.tool_calls@) == self@.records,
            r.summary@ == self@.summary,
            text::opt_text(r.source) == if ws.changed() {
                Some(ws.now())
            } else {
                None
            },
            r.source is Some <==> r.edited,
            r.spend == self@.guard.spent(),
            r.whole_file_tokens == self@.whole_file_tokens,
    {
        AgentRun {
            ok: true,
            edited: ws.is_dirty(),
            turns: self.turn,
            tool_calls: self.records,
            summary: self.summary,
            source: ws.into_changed_source(),
            spend: *self.guard.spend(),
            whole_file_tokens: self.whole_file_tokens,
        }
    }
}

// ------------------------------------------------------------------ baseline

/// What the whole-file arm came to.
///
/// This is the control: paste the file, ask for the edited file back. It is put
/// through the same gates as the bucket path, it must compile and every test
/// must still pass, so a difference in outcome is attributable to the context
/// strategy. It cannot use the atomicity gate, and that asymmetry is the point:
/// when the model returns a whole file there is no way to tell an intended edit
/// from an unintended one.
#[derive(Debug)]
pub struct BaselineRun {
    pub ok: bool,
    /// Whether the returned file actually differs from the one sent.
    pub edited: bool,
    pub compiles: bool,
    pub tests_pass: bool,
    pub error: Option<String>,
    pub source: Option<String>,
    pub spend: Spend,
    /// Lines that differ from the file sent: the blast radius of a whole-file
    /// rewrite.
    pub changed_lines: usize,
}

/// What the whole-file arm came to, as contracts speak of it.
pub struct BaselineRunView {
    pub ok: bool,
    pub edited: bool,
    pub compiles: bool,
    pub tests_pass: bool,
    pub error: Option<Seq<char>>,
    pub source: Option<Seq<char>>,
    pub spend: Spend,
    pub changed_lines: nat,
}

impl View for BaselineRun {
    type V = BaselineRunView;

    open spec fn view(&self) -> BaselineRunView {
        BaselineRunView {
            ok: self.ok,
            edited: self.edited,
            compiles: self.compiles,
            tests_pass: self.tests_pass,
            error: text::opt_text(self.error),
            source: text::opt_text(self.source),
            spend: self.spend,
            changed_lines: self.changed_lines as nat,
        }
    }
}

/// What the whole-file arm asks.
pub open spec fn baseline_text(task: Seq<char>, source: Seq<char>) -> Seq<char> {
    task + "\n\n--- file ---\n"@ + source
}

pub fn baseline_request(task: &str, source: &str) -> (r: String)
    ensures
        r@ == baseline_text(task@, source@),
{
    let mut s = task.to_owned();
    s.append("\n\n--- file ---\n");
    s.append(source);
    s
}

/// Whether the whole-file arm may be run at all.
pub fn admit_baseline(guard: &Guard, projected: u32) -> (r: Result<(), String>)
    requires
        guard.wf(),
    ensures
        text::verdict(r) == match budget::admits(
            guard.limits(),
            guard.rates(),
            guard.spent(),
            projected,
            BASELINE_OUTPUT,
        ) {
            Ok(_) => Ok::<(), Seq<char>>(()),
            Err(l) => Err(
                "baseline would exceed the "@ + l.words() + " limit before running"@,
            ),
        },
{
    match guard.check_before(projected, BASELINE_OUTPUT) {
        Ok(_) => Ok(()),
        Err(l) => {
            let mut s = "baseline would exceed the ".to_owned();
            s.append(&l.describe());
            s.append(" limit before running");
            Err(s)
        },
    }
}

/// The lines before the next one that fences code.
pub open spec fn before_fence(lines: Seq<Seq<char>>) -> Seq<Seq<char>>
    decreases lines.len(),
{
    if lines.len() == 0 || text::starts_with(text::trim_start(lines[0]), "```"@) {
        Seq::empty()
    } else {
        seq![lines[0]] + before_fence(lines.skip(1))
    }
}

/// The file in a reply. Models fence code even when told not to; the fence is
/// stripped rather than failing the arm on a formatting habit.
pub open spec fn unfenced(reply: Seq<char>) -> Seq<char> {
    let t = text::trim(reply);
    if text::starts_with(t, "```"@) {
        text::joined(before_fence(text::lines(t).skip(1)), "\n"@)
    } else {
        t
    }
}

pub fn unfence(reply: &str) -> (r: String)
    ensures
        r@ == unfenced(reply@),
{
    let t = text::trimmed(reply);
    if !text::begins(&t, "```") {
        return t;
    }
    let lines = text::lines_of(&t);
    let ghost all = text::texts(lines@);
    let mut out: Vec<String> = Vec::new();
    let mut i: usize = 1;
    assert(text::texts(out@) + before_fence(all.skip(1)) =~= before_fence(all.skip(1)));
    while i < lines.len() && !text::begins(&text::trimmed_start(&lines[i]), "```")
        invariant
            1 <= i,
            all == text::texts(lines@),
            i <= all.len() || i == 1,
            text::texts(out@) + before_fence(all.skip(i as int)) == before_fence(all.skip(1)),
        decreases lines@.len() - i,
    {
        let ghost before = text::texts(out@);
        out.push(lines[i].clone());
        proof {
            let here = all.skip(i as int);
            assert(here[0] == lines@[i as int]@);
            assert(here.skip(1) =~= all.skip(i + 1));
            assert(text::texts(out@) =~= before.push(here[0]));
            assert(before.push(here[0]) + before_fence(all.skip(i + 1)) =~= before + before_fence(
                here,
            ));
        }
        i = i + 1;
    }
    proof {
        if i <= all.len() {
            let here = all.skip(i as int);
            if i < all.len() {
                assert(here[0] == lines@[i as int]@);
            }
            assert(before_fence(here) =~= Seq::<Seq<char>>::empty());
            assert(text::texts(out@) + before_fence(here) =~= text::texts(out@));
        } else {
            lemma_fenced_text_has_a_line(t@);
        }
    }
    text::join(&out, "\n")
}

proof fn lemma_fenced_text_has_a_line(t: Seq<char>)
    requires
        text::starts_with(t, "```"@),
    ensures
        text::lines(t).len() > 0,
{
    reveal_strlit("```");
    text::lemma_text_has_a_line(t);
}

/// How many of the first `n` lines differ.
pub open spec fn differing(a: Seq<Seq<char>>, b: Seq<Seq<char>>, n: int) -> nat
    decreases n,
{
    if n <= 0 {
        0
    } else {
        differing(a, b, n - 1) + if a[n - 1] != b[n - 1] {
            1nat
        } else {
            0nat
        }
    }
}

/// How much of a file came back rewritten, whether or not it needed to: the
/// lines that differ, and those that only one of the two has.
pub open spec fn changed_lines(a: Seq<Seq<char>>, b: Seq<Seq<char>>) -> nat {
    if a.len() <= b.len() {
        differing(a, b, a.len() as int) + (b.len() - a.len()) as nat
    } else {
        differing(a, b, b.len() as int) + (a.len() - b.len()) as nat
    }
}

fn count_changed(a: &Vec<String>, b: &Vec<String>) -> (r: usize)
    ensures
        r == changed_lines(text::texts(a@), text::texts(b@)),
{
    let n: usize = if a.len() <= b.len() {
        a.len()
    } else {
        b.len()
    };
    let extra: usize = if a.len() <= b.len() {
        b.len() - a.len()
    } else {
        a.len() - b.len()
    };
    let mut count: usize = 0;
    let mut i: usize = 0;
    while i < n
        invariant
            i <= n,
            n <= a@.len(),
            n <= b@.len(),
            count <= i,
            count == differing(text::texts(a@), text::texts(b@), i as int),
        decreases n - i,
    {
        if !text::same(&a[i], &b[i]) {
            count = count + 1;
        }
        i = i + 1;
    }
    count + extra
}

/// What the whole-file arm came to, from the file it returned and what that
/// compiled to.
pub open spec fn baseline_run(
    returned: Seq<char>,
    source: Seq<char>,
    compiled: Result<Vec<TestOutcome>, String>,
    spend: Spend,
) -> BaselineRunView {
    let compiles = compiled is Ok;
    let tests_pass = compiled is Ok && gate::first_failure(compiled->Ok_0@) is None;
    BaselineRunView {
        ok: compiles && tests_pass,
        edited: compiles && tests_pass && text::trim(returned) != text::trim(source),
        compiles,
        tests_pass,
        error: match compiled {
            Err(e) => Some(e@),
            Ok(_) => if tests_pass {
                None
            } else {
                Some("a test failed after the edit"@)
            },
        },
        source: if compiles && tests_pass {
            Some(returned)
        } else {
            None
        },
        spend,
        changed_lines: changed_lines(text::lines(returned), text::lines(source)),
    }
}

/// Put the file that came back through the same gates the bucket path faces,
/// minus atomicity, which is unavailable here.
pub fn run_baseline(
    returned: String,
    source: &str,
    compiled: Result<Vec<TestOutcome>, String>,
    spend: Spend,
) -> (r: BaselineRun)
    ensures
        r@ == baseline_run(returned@, source@, compiled, spend),
{
    let changed: usize = count_changed(&text::lines_of(&returned), &text::lines_of(source));
    let differs = !text::same(&text::trimmed(&returned), &text::trimmed(source));
    match compiled {
        Err(e) => BaselineRun {
            ok: false,
            edited: false,
            compiles: false,
            tests_pass: false,
            error: Some(e),
            source: None,
            spend,
            changed_lines: changed,
        },
        Ok(tests) => {
            let pass = gate::find_failure(&tests).is_none();
            BaselineRun {
                ok: pass,
                edited: pass && differs,
                compiles: true,
                tests_pass: pass,
                error: if pass {
                    None
                } else {
                    Some("a test failed after the edit".to_owned())
                },
                source: if pass {
                    Some(returned)
                } else {
                    None
                },
                spend,
                changed_lines: changed,
            }
        },
    }
}

/// Take the reply of the whole-file arm in: record what it used, and judge the
/// file in it by what that compiled to. The file is the one that [`unfence`]
/// finds in the reply.
pub fn settle_baseline(
    guard: &mut Guard,
    completion: &Completion,
    source: &str,
    compiled: Result<Vec<TestOutcome>, String>,
) -> (r: BaselineRun)
    requires
        old(guard).wf(),
        old(guard).spent().room_for(completion.usage),
    ensures
        final(guard).wf(),
        spends(*old(guard), *final(guard), completion.usage),
        r@ == baseline_run(
            unfenced(completion.text@),
            source@,
            compiled,
            old(guard).spent().plus(completion.usage, old(guard).rates()),
        ),
{
    // The call already happened: a ceiling that it crossed stops the next one.
    let _ = guard.record(&completion.usage);
    run_baseline(unfence(&completion.text), source, compiled, *guard.spend())
}

// ---------------------------------------------------------------------- laws

/// Every call of a turn is answered by exactly one block, in order, under its
/// own id, with its own output, and all blocks stand in a single user message.
pub proof fn law_every_call_is_answered_once(
    s: SessionView,
    calls: Seq<ToolCallView>,
    outputs: Seq<(Seq<char>, bool)>,
)
    requires
        calls.len() == outputs.len(),
    ensures
        after_answers(s, calls, outputs).messages.drop_last() == s.messages,
        after_answers(s, calls, outputs).messages.last() == (MessageView {
            role: "user"@,
            content: JsonView::Array(results(calls, outputs)),
        }),
        results(calls, outputs).len() == calls.len(),
        forall|i: int|
            0 <= i < calls.len() ==> {
                let b = #[trigger] results(calls, outputs)[i];
                &&& json::get_text(b, "tool_use_id"@) == Some(calls[i].id)
                &&& json::get_text(b, "content"@) == Some(outputs[i].0)
                &&& json::is_true(b, "is_error"@) == outputs[i].1
            },
{
    assert(after_answers(s, calls, outputs).messages.drop_last() =~= s.messages);
    assert forall|i: int| 0 <= i < calls.len() implies {
        let b = #[trigger] results(calls, outputs)[i];
        &&& json::get_text(b, "tool_use_id"@) == Some(calls[i].id)
        &&& json::get_text(b, "content"@) == Some(outputs[i].0)
        &&& json::is_true(b, "is_error"@) == outputs[i].1
    } by {
        lemma_tool_result_fields(calls[i].id, outputs[i].0, outputs[i].1);
    }
}

proof fn lemma_tool_result_fields(id: Seq<char>, content: Seq<char>, is_error: bool)
    ensures
        json::get_text(llm::tool_result(id, content, is_error), "tool_use_id"@) == Some(id),
        json::get_text(llm::tool_result(id, content, is_error), "content"@) == Some(content),
        json::is_true(llm::tool_result(id, content, is_error), "is_error"@) == is_error,
{
    reveal_strlit("type");
    reveal_strlit("tool_use_id");
    reveal_strlit("content");
    reveal_strlit("is_error");
    reveal_with_fuel(json::field, 5);
    let fields = llm::tool_result(id, content, is_error)->Object_0;
    let three = fields.drop_last();
    let two = three.drop_last();
    assert(fields.last() == ("is_error"@, JsonView::Bool(is_error)));
    assert(three.last() == ("content"@, JsonView::Text(content)));
    assert(two.last() == ("tool_use_id"@, JsonView::Text(id)));
    assert("is_error"@.len() == 8 && "content"@.len() == 7 && "tool_use_id"@.len() == 11);
}

/// The turn of a model that asks for tools is echoed verbatim: the history is
/// kept, and the content array of the response is added to it as it came.
pub proof fn law_assistant_turn_is_echoed(s: SessionView, raw: JsonView, guard: Guard)
    requires
        llm::meaning(raw) is Ok,
        asks_for_tools(llm::meaning(raw)->Ok_0),
        json::get(raw, "content"@) is Some,
    ensures
        after_turn(s, llm::meaning(raw)->Ok_0, guard).messages == s.messages.push(
            MessageView { role: "assistant"@, content: json::get(raw, "content"@)->0 },
        ),
{
}

/// A request is made only when the ceilings admit it, and none is made once one
/// of them is crossed.
pub proof fn law_no_request_past_a_ceiling(s: SessionView, projected: u32)
    ensures
        after_begin(s, projected).asked ==> s.turn < s.max_turns && budget::admits(
            s.guard.limits(),
            s.guard.rates(),
            s.guard.spent(),
            projected,
            TURN_OUTPUT,
        ) is Ok,
        budget::exceeded(s.guard.limits(), s.guard.spent()) is Err ==> !after_begin(
            s,
            projected,
        ).asked,
{
    if budget::exceeded(s.guard.limits(), s.guard.spent()) is Err {
        budget::law_exceeded_budget_admits_nothing(
            s.guard.limits(),
            s.guard.rates(),
            s.guard.spent(),
            projected,
            TURN_OUTPUT,
        );
    }
}

/// A run that began with nothing spent never makes more requests than it takes
/// turns, nor more than the ceiling on requests allows.
pub proof fn law_requests_are_bounded(s: SessionView)
    requires
        s.wf(),
        s.start == 0,
    ensures
        s.requests_made() <= s.turn <= s.max_turns,
        s.requests_made() <= s.guard.limits().max_requests,
        s.guard.spent().requests <= s.requests_made(),
{
}

/// A turn that was refused, whether by a ceiling or for want of turns, is the
/// last: no request is out after it and no turn can begin.
pub proof fn law_nothing_follows_a_refused_turn(s: SessionView, projected: u32)
    requires
        !(next_turn(s, projected) is Ask),
    ensures
        after_begin(s, projected).ended,
        !after_begin(s, projected).asked,
        !after_begin(s, projected).can_begin(),
        after_begin(s, projected).guard == s.guard,
{
}

/// The whole-file arm hands a file back exactly when it compiled and passed
/// every test, says what went wrong exactly when it did not, and claims an edit
/// only for a file that it hands back.
pub proof fn law_baseline_faces_the_same_gates(
    returned: Seq<char>,
    source: Seq<char>,
    compiled: Result<Vec<TestOutcome>, String>,
    spend: Spend,
)
    ensures
        ({
            let r = baseline_run(returned, source, compiled, spend);
            &&& r.ok <==> r.compiles && r.tests_pass
            &&& r.source is Some <==> r.ok
            &&& r.error is None <==> r.ok
            &&& r.edited ==> r.ok
        }),
{
}

/// No line counts as changed exactly when the two files have the same lines.
pub proof fn law_unchanged_file_has_no_changed_lines(a: Seq<Seq<char>>, b: Seq<Seq<char>>)
    ensures
        changed_lines(a, b) == 0 <==> a == b,
{
    if changed_lines(a, b) == 0 {
        assert forall|i: int| 0 <= i < a.len() implies a[i] == b[i] by {
            lemma_differing(a, b, a.len() as int, i);
        }
        assert(a =~= b);
    }
    if a == b {
        lemma_same_lines(a, a.len() as int);
    }
}

proof fn lemma_differing(a: Seq<Seq<char>>, b: Seq<Seq<char>>, n: int, i: int)
    requires
        differing(a, b, n) == 0,
        0 <= i < n,
    ensures
        a[i] == b[i],
    decreases n,
{
    if i < n - 1 {
        lemma_differing(a, b, n - 1, i);
    }
}

proof fn lemma_same_lines(a: Seq<Seq<char>>, n: int)
    ensures
        differing(a, a, n) == 0,
    decreases n,
{
    if n > 0 {
        lemma_same_lines(a, n - 1);
    }
}

/// The name is that of a tool offered.
pub open spec fn offered(name: Seq<char>) -> bool {
    exists|i: int|
        0 <= i < toolset::catalogue().len() && (#[trigger] toolset::catalogue()[i]).name == name
}

/// A call by a name that is not among the tools offered is refused as such.
pub proof fn law_only_offered_tools_are_known(
    s: Seq<char>,
    p: Program,
    call: ToolCallView,
    resolved: Option<Seq<char>>,
)
    requires
        !offered(call.name),
    ensures
        dispatch::next_step(s, Ok(p), call, resolved) == dispatch::StepView::Done("no such tool: "@ + call.name, true),
{
    let c = toolset::catalogue();
    assert(c[0].name == "list_buckets"@);
    assert(c[1].name == "find_buckets"@);
    assert(c[2].name == "read_bucket"@);
    assert(c[3].name == "edit_bucket"@);
    assert(c[4].name == "patch_bucket"@);
    assert(c[5].name == "delete_bucket"@);
    assert(c[6].name == "set_signature"@);
    assert(c[7].name == "set_tests"@);
    assert(c[8].name == "add_bucket"@);
    assert(c[9].name == "bucket_graph"@);
    assert(c[10].name == "run_tests"@);
    assert(c[11].name == "read_file"@);
    assert(c[12].name == "write_file"@);
    assert(c[13].name == "run_command"@);
}

/// Each call of a turn leaves a record, behind those from before and in order:
/// with the turn, the tool and its input, whether it went well, and the first
/// two thousand characters of its result.
pub proof fn law_every_call_is_recorded(
    s: SessionView,
    calls: Seq<ToolCallView>,
    outputs: Seq<(Seq<char>, bool)>,
    i: int,
)
    requires
        calls.len() == outputs.len(),
        0 <= i < calls.len(),
    ensures
        ({
            let all = after_answers(s, calls, outputs).records;
            let r = all[s.records.len() + i];
            &&& all.len() == s.records.len() + calls.len()
            &&& all.take(s.records.len() as int) == s.records
            &&& r.turn == s.turn
            &&& r.name == calls[i].name
            &&& r.input == calls[i].input
            &&& r.ok == !outputs[i].1
            &&& r.result.is_prefix_of(outputs[i].0)
            &&& r.result.len() == if outputs[i].0.len() < 2_000 {
                outputs[i].0.len()
            } else {
                2_000
            }
        }),
{
    let all = after_answers(s, calls, outputs).records;
    assert(all.take(s.records.len() as int) =~= s.records);
    assert(all[s.records.len() + i] == record(s.turn, calls[i], outputs[i]));
    let r = record(s.turn, calls[i], outputs[i]).result;
    assert(r =~= outputs[i].0.subrange(0, r.len() as int));
}

/// Answering the calls of a turn spends nothing, begins nothing and keeps what
/// was said: only the messages and the records grow. The run ends there exactly
/// when a ceiling was crossed.
pub proof fn law_answering_only_adds(
    s: SessionView,
    calls: Seq<ToolCallView>,
    outputs: Seq<(Seq<char>, bool)>,
)
    ensures
        ({
            let t = after_answers(s, calls, outputs);
            &&& t.guard == s.guard
            &&& t.summary == s.summary
            &&& t.turn == s.turn
            &&& t.max_turns == s.max_turns
            &&& t.whole_file_tokens == s.whole_file_tokens
            &&& t.asked == s.asked
            &&& !t.owing
            &&& t.ended == s.over
        }),
{
}

/// A turn begins where one is left and the budget admits it, and takes one turn;
/// a turn that the budget refuses is counted, one past the last is not.
pub proof fn law_a_turn_begins_where_it_may(s: SessionView, projected: u32)
    ensures
        ({
            let t = after_begin(s, projected);
            let admitted = budget::admits(
                s.guard.limits(),
                s.guard.rates(),
                s.guard.spent(),
                projected,
                4_000,
            );
            &&& next_turn(s, projected) is Ask <==> s.turn < s.max_turns && admitted is Ok
            &&& next_turn(s, projected) is OutOfTurns <==> s.turn >= s.max_turns
            &&& s.turn < s.max_turns && admitted is Err ==> next_turn(s, projected)
                == Next::Limit(admitted->Err_0)
            &&& s.turn < s.max_turns ==> t.turn == s.turn + 1
            &&& s.turn >= s.max_turns ==> t.turn == s.turn
            &&& t.messages == s.messages
            &&& t.records == s.records
            &&& t.summary == s.summary
            &&& t.guard == s.guard
            &&& t.owing == s.owing
        }),
{
}

/// The summary of a run is the last text that was not blank, trimmed; a turn
/// without tools ends the run and adds no message; and whether a ceiling was
/// crossed is read off what has been spent by then.
pub proof fn law_a_turn_is_taken_in(s: SessionView, c: CompletionView, guard: Guard)
    ensures
        ({
            let t = after_turn(s, c, guard);
            &&& text::trim(c.text).len() > 0 ==> t.summary == text::trim(c.text)
            &&& text::trim(c.text).len() == 0 ==> t.summary == s.summary
            &&& t.guard == guard
            &&& t.over <==> budget::exceeded(guard.limits(), guard.spent()) is Err
            &&& c.stop_reason == Some("tool_use"@) ==> t.owing && !t.ended && t.messages
                == s.messages.push(MessageView { role: "assistant"@, content: c.raw_content })
            &&& c.stop_reason != Some("tool_use"@) ==> !t.owing && t.ended && t.messages
                == s.messages
            &&& !t.asked
            &&& t.records == s.records
            &&& t.turn == s.turn
        }),
{
}

/// What the model is told first holds the task and the name of the file, and a
/// bucket that was named is passed on behind the goal.
pub proof fn law_task_names_the_file(task: Seq<char>, file: Seq<char>, bucket: Seq<char>)
    ensures
        text::starts_with(task_text(task, Some(file)), task),
        text::contains_text(task_text(task, Some(file)), seq!['`'] + file + seq!['`']),
        task_text(task, None) == task_text(task, Some("program.bkt"@)),
        hinted(task, None) == task,
        text::starts_with(hinted(task, Some(bucket)), task),
        text::contains_text(hinted(task, Some(bucket)), seq!['`'] + bucket + seq!['`']),
{
    let a = "\n\n(The program is the file `"@;
    let b = "`. Prefer the bucket tools; read_file is a last resort.)"@;
    reveal_strlit("\n\n(The program is the file `");
    reveal_strlit("`. Prefer the bucket tools; read_file is a last resort.)");
    lemma_named(task, a, file, b);
    let c = "\n\n(The relevant bucket is `"@;
    let d = "`.)"@;
    reveal_strlit("\n\n(The relevant bucket is `");
    reveal_strlit("`.)");
    lemma_named(task, c, bucket, d);
}

proof fn lemma_named(task: Seq<char>, a: Seq<char>, name: Seq<char>, b: Seq<char>)
    requires
        a.len() > 0,
        a.last() == '`',
        b.len() > 0,
        b[0] == '`',
    ensures
        text::starts_with(task + a + name + b, task),
        text::contains_text(task + a + name + b, seq!['`'] + name + seq!['`']),
{
    let t = task + a + name + b;
    assert(t.subrange(0, task.len() as int) =~= task);
    let quoted = seq!['`'] + name + seq!['`'];
    let i = task.len() + a.len() - 1;
    assert(t.subrange(i, i + quoted.len()) =~= quoted);
    assert(text::occurs_at(t, quoted, i));
}

/// What a request is reckoned at is the sum of its parts, up to what a count can
/// hold.
pub proof fn law_projection_adds_up(a: Seq<usize>, b: Seq<usize>)
    ensures
        bench::sum(Seq::empty()) == 0,
        a.len() == 1 ==> bench::sum(a) == a[0],
        bench::sum(a + b) == bench::sum(a) + bench::sum(b),
        bench::sum(a) <= u32::MAX ==> projection(a) == bench::sum(a),
        bench::sum(a) > u32::MAX ==> projection(a) == u32::MAX,
    decreases b.len(),
{
    if a.len() == 1 {
        assert(bench::sum(a.drop_last()) == 0);
    }
    if b.len() == 0 {
        assert(a + b =~= a);
    } else {
        law_projection_adds_up(a, b.drop_last());
        assert((a + b).drop_last() =~= a + b.drop_last());
        assert((a + b).last() == b.last());
    }
}

/// The headline of an output is the beginning of its first line, eighty-eight
/// characters at most.
pub proof fn law_headline_begins_the_first_line(line: Seq<char>, rest: Seq<char>)
    requires
        forall|i: int| 0 <= i < line.len() ==> line[i] != '\n' && line[i] != '\r',
    ensures
        ({
            let h = headline(line.push('\n') + rest);
            &&& h.is_prefix_of(line)
            &&& h.len() == if line.len() < 88 {
                line.len()
            } else {
                88
            }
        }),
        headline(Seq::empty()).len() == 0,
{
    text::law_lines_end_at_newlines(line, rest);
    let h = headline(line.push('\n') + rest);
    assert(text::lines(line.push('\n') + rest)[0] == line);
    assert(h =~= line.subrange(0, h.len() as int));
}

/// The whole-file arm is given the task and, behind it, the file.
pub proof fn law_baseline_sends_the_file(task: Seq<char>, source: Seq<char>)
    ensures
        text::starts_with(baseline_text(task, source), task),
        text::ends_with(baseline_text(task, source), source),
{
    let t = baseline_text(task, source);
    assert(t.subrange(0, task.len() as int) =~= task);
    assert(t.subrange(t.len() - source.len(), t.len() as int) =~= source);
}

/// A reply without a fence is taken as it is, trimmed. Of a fenced one the lines
/// between the fence and the next fence are taken, or all the rest where there is
/// no other.
pub proof fn law_fences_are_taken_off(
    reply: Seq<char>,
    fence: Seq<char>,
    body: Seq<Seq<char>>,
    rest: Seq<Seq<char>>,
)
    requires
        text::lines(text::trim(reply)) == seq![fence] + body + rest,
        forall|i: int|
            0 <= i < body.len() ==> !text::starts_with(
                text::trim_start(#[trigger] body[i]),
                "```"@,
            ),
        rest.len() == 0 || text::starts_with(text::trim_start(rest[0]), "```"@),
    ensures
        text::starts_with(text::trim(reply), "```"@) ==> unfenced(reply) == text::joined(
            body,
            "\n"@,
        ),
        !text::starts_with(text::trim(reply), "```"@) ==> unfenced(reply) == text::trim(reply),
{
    let all = seq![fence] + body + rest;
    assert(all.skip(1) =~= body + rest);
    lemma_before_fence(body, rest);
}

proof fn lemma_before_fence(a: Seq<Seq<char>>, b: Seq<Seq<char>>)
    requires
        forall|i: int|
            0 <= i < a.len() ==> !text::starts_with(text::trim_start(#[trigger] a[i]), "```"@),
        b.len() == 0 || text::starts_with(text::trim_start(b[0]), "```"@),
    ensures
        before_fence(a + b) == a,
    decreases a.len(),
{
    if a.len() == 0 {
        assert(a + b =~= b);
        assert(before_fence(a + b) =~= a);
    } else {
        let t = a.skip(1);
        assert forall|i: int| 0 <= i < t.len() implies !text::starts_with(
            text::trim_start(#[trigger] t[i]),
            "```"@,
        ) by {
            assert(t[i] == a[i + 1]);
        }
        lemma_before_fence(t, b);
        assert((a + b).skip(1) =~= t + b);
        assert((a + b)[0] == a[0]);
        assert(!text::starts_with(text::trim_start(a[0]), "```"@));
        assert(before_fence(a + b) =~= a);
    }
}

/// Lines are compared place by place: a place where two files of one length
/// differ counts one, lines that only one of them has count each, and it does not
/// matter which of the files comes first.
pub proof fn law_changed_lines_are_counted(
    a: Seq<Seq<char>>,
    b: Seq<Seq<char>>,
    x: Seq<char>,
    y: Seq<char>,
    more: Seq<Seq<char>>,
)
    ensures
        changed_lines(a, b) == changed_lines(b, a),
        a.len() == b.len() ==> changed_lines(a.push(x), b.push(y)) == changed_lines(a, b) + if x
            == y {
            0nat
        } else {
            1nat
        },
        a.len() == b.len() ==> changed_lines(a, b + more) == changed_lines(a, b) + more.len(),
{
    let n = if a.len() <= b.len() {
        a.len() as int
    } else {
        b.len() as int
    };
    lemma_differing_both_ways(a, b, n);
    if a.len() == b.len() {
        lemma_differing_within(a.push(x), b.push(y), a, b, n);
        lemma_differing_within(a, b + more, a, b, n);
    }
}

proof fn lemma_differing_both_ways(a: Seq<Seq<char>>, b: Seq<Seq<char>>, n: int)
    ensures
        differing(a, b, n) == differing(b, a, n),
    decreases n,
{
    if n > 0 {
        lemma_differing_both_ways(a, b, n - 1);
    }
}

proof fn lemma_differing_within(
    a: Seq<Seq<char>>,
    b: Seq<Seq<char>>,
    c: Seq<Seq<char>>,
    d: Seq<Seq<char>>,
    n: int,
)
    requires
        forall|i: int| 0 <= i < n ==> #[trigger] a[i] == c[i],
        forall|i: int| 0 <= i < n ==> #[trigger] b[i] == d[i],
    ensures
        differing(a, b, n) == differing(c, d, n),
    decreases n,
{
    if n > 0 {
        lemma_differing_within(a, b, c, d, n - 1);
        assert(a[n - 1] == c[n - 1] && b[n - 1] == d[n - 1]);
    }
}

/// What the whole-file arm reports is what came back: it compiles when the file
/// did, its tests pass when every one does, the error is the compiler's where it
/// did not compile, the file handed back is the one returned, and it counts as
/// edited when it is not, white space at its ends aside, the one that was sent.
pub proof fn law_baseline_reports_what_came_back(
    returned: Seq<char>,
    source: Seq<char>,
    compiled: Result<Vec<TestOutcome>, String>,
    spend: Spend,
)
    ensures
        ({
            let r = baseline_run(returned, source, compiled, spend);
            &&& r.compiles <==> compiled is Ok
            &&& compiled matches Ok(tests) ==> (r.tests_pass <==> forall|i: int|
                0 <= i < tests@.len() ==> (#[trigger] tests@[i]).passes())
            &&& compiled matches Err(e) ==> r.error == Some(e@) && !r.tests_pass
            &&& r.ok ==> r.source == Some(returned)
            &&& r.edited <==> r.ok && text::trim(returned) != text::trim(source)
            &&& r.spend == spend
            &&& r.changed_lines == changed_lines(text::lines(returned), text::lines(source))
        }),
{
    if let Ok(tests) = compiled {
        if forall|i: int| 0 <= i < tests@.len() ==> (#[trigger] tests@[i]).passes() {
            gate::law_no_failure_where_all_pass(tests@);
        } else {
            gate::law_a_failure_is_noticed(tests@);
        }
    }
}

/// What the budget is charged with for a turn: one request, and each count of
/// its usage; the ceilings and the prices stay.
pub proof fn law_a_turn_is_charged(before: Guard, after: Guard, u: Usage)
    requires
        spends(before, after, u),
        before.spent().room_for(u),
    ensures
        after.limits() == before.limits(),
        after.rates() == before.rates(),
        after.spent().requests == before.spent().requests + 1,
        after.spent().input_tokens == before.spent().input_tokens + u.input_tokens,
        after.spent().output_tokens == before.spent().output_tokens + u.output_tokens,
        after.spent().cache_read_tokens == before.spent().cache_read_tokens
            + u.cache_read_input_tokens,
        after.spent().cache_write_tokens == before.spent().cache_write_tokens
            + u.cache_creation_input_tokens,
{
}

/// A turn can begin unless a reply is out, calls are unanswered, or the run is
/// over.
pub proof fn law_when_a_turn_can_begin(s: SessionView)
    ensures
        s.can_begin() <==> !(s.asked || s.owing || s.ended),
        s.asked ==> s.requests_made() == s.guard.spent().requests + 1,
        !s.asked ==> s.requests_made() == s.guard.spent().requests,
{
}

/// What contracts say of a record, a turn and a baseline is what they hold, field
/// by field; and what a turn and the whole-file arm are reckoned at.
pub proof fn law_runs_are_read_as_they_are(
    r: ToolRecord,
    b: BaselineRun,
    e: String,
    calls: Vec<ToolCall>,
)
    ensures
        r@.turn == r.turn && r@.name == r.name@ && r@.input == r.input@ && r@.ok == r.ok
            && r@.result == r.result@,
        b@.ok == b.ok && b@.edited == b.edited && b@.compiles == b.compiles && b@.tests_pass
            == b.tests_pass && b@.spend == b.spend && b@.changed_lines == b.changed_lines,
        b@.error == text::opt_text(b.error) && b@.source == text::opt_text(b.source),
        Turn::Failed(e)@ == TurnView::Failed(e@),
        Turn::Finished@ == TurnView::Finished,
        Turn::Calls(calls)@ == TurnView::Calls(llm::call_views(calls@)),
        TURN_OUTPUT == 4_000,
        BASELINE_OUTPUT == 8_000,
{
}

/// Lists of records and outputs are read item by item.
pub proof fn law_lists_of_records_are_read_in_order(r: Seq<ToolRecord>, o: Seq<Output>, i: int)
    ensures
        record_views(r).len() == r.len() && (0 <= i < r.len() ==> record_views(r)[i] == r[i]@),
        output_views(o).len() == o.len() && (0 <= i < o.len() ==> output_views(o)[i] == o[i]@),
{
}

/// What the model is told, word for word: the task with the file, the goal with
/// the bucket, and the task with the source for the whole-file arm.
pub proof fn law_what_the_model_is_told(task: Seq<char>, name: Seq<char>, source: Seq<char>)
    ensures
        task_text(task, Some(name)) == task + "\n\n(The program is the file `"@ + name
            + "`. Prefer the bucket tools; read_file is a last resort.)"@,
        hinted(task, Some(name)) == task + "\n\n(The relevant bucket is `"@ + name + "`.)"@,
        baseline_text(task, source) == task + "\n\n--- file ---\n"@ + source,
{
}

/// A file that compiles and fails a test is reported as such.
pub proof fn law_baseline_tells_a_failed_test(
    returned: Seq<char>,
    source: Seq<char>,
    compiled: Result<Vec<TestOutcome>, String>,
    spend: Spend,
    i: int,
)
    requires
        compiled matches Ok(tests) && 0 <= i < tests@.len() && !tests@[i].passes(),
    ensures
        baseline_run(returned, source, compiled, spend).error == Some(
            "a test failed after the edit"@,
        ),
        baseline_run(returned, source, compiled, spend).source is None,
        !baseline_run(returned, source, compiled, spend).ok,
{
    gate::law_a_failure_is_noticed(compiled->Ok_0@);
}

} // verus!
