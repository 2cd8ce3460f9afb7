use bucketcode::agent::{
    admit_baseline, baseline_request, headline_of, project, run, run_baseline, settle_baseline, tools, unfence, with_hint, Next, Session,
    Turn, SYSTEM, SYSTEM_BASELINE,
};
use bucketcode::budget::{Budget, Guard, LimitHit, Spend};
use bucketcode::dispatch::{Output, Workspace};
use bucketcode::json::Json;
use bucketcode::llm::{interpret, Completion, LlmError};
use bucketcode::program::TestOutcome;
use bucketcode::toolset::overhead_texts;

fn guard(b: Budget) -> Guard {
    Guard::new(b, "opus-5")
}

fn session(max_turns: usize) -> Session {
    run(guard(Budget::default()), "halve it", &Some("app.bkt".into()), max_turns, 77)
}

fn completion(text: &str) -> Completion {
    match interpret(&Json::from_text(text).unwrap()) {
        Ok(c) => c,
        Err(e) => panic!("{}", e.describe()),
    }
}

fn asking() -> Completion {
    completion(
        "{\"stop_reason\":\"tool_use\",\"usage\":{\"input_tokens\":10,\"output_tokens\":5},\"content\":[\
         {\"type\":\"text\",\"text\":\" looking \"},\
         {\"type\":\"tool_use\",\"id\":\"a\",\"name\":\"list_buckets\",\"input\":{}},\
         {\"type\":\"tool_use\",\"id\":\"b\",\"name\":\"run_tests\",\"input\":{\"k\":1.5}}]}",
    )
}

fn output(text: &str, is_error: bool) -> Output {
    Output { text: text.into(), is_error }
}

#[test]
fn a_run_begins_with_the_task_and_the_file() {
    let s = session(3);
    assert_eq!(
        s.message_texts(),
        ["\"halve it\\n\\n(The program is the file `app.bkt`. Prefer the bucket tools; read_file is a last resort.)\""]
    );
    let s = run(guard(Budget::default()), "t", &None, 1, 0);
    assert!(s.message_texts()[0].contains("`program.bkt`"));
}

#[test]
fn all_calls_of_a_turn_are_answered_together() {
    let mut s = session(3);
    assert!(matches!(s.begin(100), Next::Ask));
    let calls = match s.receive(Ok(asking())) {
        Turn::Calls(c) => c,
        _ => panic!("the model asked for tools"),
    };
    assert_eq!(calls.len(), 2);
    assert!(s.answer(calls, vec![output("map", false), output("broken", true)]));
    let texts = s.message_texts();
    assert_eq!(texts.len(), 3, "task, assistant, one message with both results");
    assert_eq!(s.messages()[1].role, "assistant");
    assert_eq!(
        texts[2],
        "[{\"content\":\"map\",\"is_error\":false,\"tool_use_id\":\"a\",\"type\":\"tool_result\"},\
         {\"content\":\"broken\",\"is_error\":true,\"tool_use_id\":\"b\",\"type\":\"tool_result\"}]"
    );
    assert!(matches!(s.begin(100), Next::Ask));
    let done = completion("{\"stop_reason\":\"end_turn\",\"content\":[{\"type\":\"text\",\"text\":\"done\\n\"}]}");
    assert!(matches!(s.receive(Ok(done)), Turn::Finished));
    let r = s.finish(Workspace::new("src".into()));
    assert!(r.ok && !r.edited);
    assert_eq!((r.turns, r.summary.as_str(), r.whole_file_tokens), (2, "done", 77));
    assert_eq!(r.source, None);
    assert_eq!(r.spend.requests, 2);
    let kept: Vec<(usize, &str, bool, &str)> =
        r.tool_calls.iter().map(|t| (t.turn, t.name.as_str(), t.ok, t.result.as_str())).collect();
    assert_eq!(kept, [(1, "list_buckets", true, "map"), (1, "run_tests", false, "broken")]);
    assert_eq!(r.tool_calls[1].input.to_text(), "{\"k\":1.5}");
}

#[test]
fn a_long_result_is_kept_short_for_display() {
    let mut s = session(1);
    s.begin(0);
    let calls = match s.receive(Ok(asking())) {
        Turn::Calls(c) => c,
        _ => panic!("the model asked for tools"),
    };
    let long = "é".repeat(2_001);
    s.answer(calls, vec![output(&long, false), output(&"y".repeat(2_000), false)]);
    assert!(s.message_texts()[2].contains(&long), "the model sees the whole thing");
    let r = s.finish(Workspace::new(String::new()));
    assert_eq!(r.tool_calls[0].result, "é".repeat(2_000));
    assert_eq!(r.tool_calls[1].result.len(), 2_000);
}

#[test]
fn turns_run_out() {
    let mut s = session(1);
    assert!(matches!(s.begin(0), Next::Ask));
    let calls = match s.receive(Ok(asking())) {
        Turn::Calls(c) => c,
        _ => panic!("the model asked for tools"),
    };
    s.answer(calls, vec![output("", false), output("", false)]);
    assert!(matches!(s.begin(0), Next::OutOfTurns));
    assert_eq!(s.turn(), 1);
    assert_eq!(s.finish(Workspace::new(String::new())).summary, "looking");
}

#[test]
fn a_ceiling_stops_the_run_before_the_next_call() {
    let b = Budget { max_output_tokens: 4_003, ..Budget::default() };
    let mut s = run(guard(b), "t", &None, 9, 0);
    assert!(matches!(s.begin(0), Next::Ask));
    let calls = match s.receive(Ok(asking())) {
        Turn::Calls(c) => c,
        _ => panic!("the model asked for tools"),
    };
    assert!(s.answer(calls, vec![output("", false), output("", false)]), "5 tokens are within the ceiling");
    assert!(matches!(s.begin(0), Next::Limit(LimitHit::OutputTokens)));
    assert_eq!(s.turn(), 2, "the refused turn is counted");
    assert_eq!(s.spend().requests, 1);
}

#[test]
fn a_crossed_ceiling_ends_the_run_after_the_answers() {
    let b = Budget { max_input_tokens: 9, ..Budget::default() };
    let mut s = run(guard(b), "t", &None, 9, 0);
    assert!(matches!(s.begin(0), Next::Ask));
    let calls = match s.receive(Ok(asking())) {
        Turn::Calls(c) => c,
        _ => panic!("the model asked for tools"),
    };
    assert!(!s.answer(calls, vec![output("", false), output("", false)]));
    assert_eq!(s.finish(Workspace::new(String::new())).spend.requests, 1);
}

#[test]
fn a_failed_call_fails_the_run() {
    let mut s = session(1);
    s.begin(0);
    match s.receive(Err(LlmError::Refused { category: None, explanation: Some("no".into()) })) {
        Turn::Failed(e) => assert_eq!(e, "the model declined this request: no"),
        _ => panic!("a refusal ends the run"),
    }
    let mut s = session(1);
    s.begin(0);
    match s.receive(Err(LlmError::Transport("dns".into()))) {
        Turn::Failed(e) => assert_eq!(e, "transport error: dns"),
        _ => panic!("a failure ends the run"),
    }
}

#[test]
fn requests_stay_within_turns_and_ceiling() {
    for (max_turns, max_requests, made, taken) in [(0, 5, 0, 0), (2, 5, 2, 2), (5, 2, 2, 3), (3, 3, 3, 3)] {
        let b = Budget { max_requests, ..Budget::default() };
        let mut s = run(guard(b), "t", &None, max_turns, 0);
        while matches!(s.begin(0), Next::Ask) {
            let calls = match s.receive(Ok(asking())) {
                Turn::Calls(c) => c,
                _ => panic!("the model asked for tools"),
            };
            assert!(s.answer(calls, vec![output("", false), output("", false)]));
        }
        let r = s.finish(Workspace::new(String::new()));
        assert_eq!((r.spend.requests, r.turns), (made, taken), "a refused turn is counted, not made");
    }
}

#[test]
fn an_edited_source_is_handed_back() {
    let s = session(1);
    let mut ws = Workspace::new("old".into());
    ws.settle_edit("new".into(), Ok(()), Ok(()), Ok((0, 0)));
    let r = s.finish(ws);
    assert!(r.edited);
    assert_eq!(r.source.as_deref(), Some("new"));
}

#[test]
fn sizes_add_up_without_wrapping() {
    assert_eq!(project(&vec![]), 0);
    assert_eq!(project(&vec![1, 2, 3]), 6);
    assert_eq!(project(&vec![u32::MAX as usize, 1]), u32::MAX);
    assert_eq!(project(&vec![usize::MAX, usize::MAX]), u32::MAX);
}

#[test]
fn the_catalogue_has_every_tool() {
    let names: Vec<String> = tools().into_iter().map(|t| t.name).collect();
    assert_eq!(
        names,
        [
            "list_buckets", "find_buckets", "read_bucket", "edit_bucket", "patch_bucket", "delete_bucket",
            "set_signature", "set_tests", "add_bucket", "bucket_graph", "run_tests", "read_file", "write_file",
            "run_command"
        ]
    );
    let edit = &tools()[3];
    assert!(edit.description.starts_with("Replace one bucket's body and description. The edit is checked"));
    assert_eq!(
        tools()[0].input_schema.to_text(),
        "{\"additionalProperties\":false,\"properties\":{},\"type\":\"object\"}"
    );
    assert_eq!(
        tools()[13].input_schema.to_text(),
        "{\"additionalProperties\":false,\"properties\":{\"argv\":{\"description\":\"Program and arguments, e.g. \
         [\\\"cargo\\\", \\\"test\\\"].\",\"items\":{\"type\":\"string\"},\"type\":\"array\"}},\"required\":[\"argv\"],\"type\":\"object\"}"
    );
    assert!(SYSTEM.starts_with("You are a coding agent working on a bucketlang program."));
    assert!(SYSTEM.ends_with("stop calling tools and say briefly what you changed."));
    let fixed = overhead_texts();
    assert_eq!(fixed.len(), 1 + 2 * 14);
    assert_eq!(fixed[0], SYSTEM);
    assert_eq!(fixed[8], tools()[3].input_schema.to_text());
}

#[test]
fn a_named_bucket_becomes_a_hint() {
    assert_eq!(with_hint("g", &None), "g");
    assert_eq!(with_hint("g", &Some("b".into())), "g\n\n(The relevant bucket is `b`.)");
}

#[test]
fn one_line_of_an_output_is_shown() {
    assert_eq!(headline_of("a\nb"), "a");
    assert_eq!(headline_of(""), "");
    assert_eq!(headline_of(&"é".repeat(90)), "é".repeat(88));
}

#[test]
fn the_baseline_is_admitted_by_the_same_ceilings() {
    let g = guard(Budget { max_output_tokens: 7_999, ..Budget::default() });
    assert_eq!(
        admit_baseline(&g, 1).unwrap_err(),
        "baseline would exceed the output tokens limit before running"
    );
    assert!(admit_baseline(&guard(Budget::default()), 1).is_ok());
    assert_eq!(baseline_request("t", "src"), "t\n\n--- file ---\nsrc");
    assert!(SYSTEM_BASELINE.starts_with("You are editing a bucketlang program."));
}

#[test]
fn fences_are_stripped() {
    assert_eq!(unfence(" a\nb \n"), "a\nb");
    assert_eq!(unfence("```bkt\na\n  b\n```\nthanks"), "a\n  b");
    assert_eq!(unfence("```\na\n  ```"), "a");
    assert_eq!(unfence("```"), "");
}

fn outcome(expect_error: bool, error: Option<&str>) -> TestOutcome {
    TestOutcome {
        id: "t".into(),
        subject: None,
        desc: String::new(),
        expect_error,
        error: error.map(String::from),
    }
}

#[test]
fn the_baseline_faces_the_same_gates() {
    let s = Spend::default();
    let r = run_baseline("a\nx\n".into(), "a\nb\nc\n", Ok(vec![outcome(false, None)]), s);
    assert!(r.ok && r.edited && r.compiles && r.tests_pass);
    assert_eq!((r.changed_lines, r.error.as_deref(), r.source.as_deref()), (2, None, Some("a\nx\n")));
    let r = run_baseline("a\n".into(), "a", Ok(vec![]), s);
    assert!(r.ok && !r.edited, "only space differs");
    assert_eq!(r.changed_lines, 0);
    let r = run_baseline("a".into(), "b", Ok(vec![outcome(false, Some("no"))]), s);
    assert!(!r.ok && r.compiles && !r.tests_pass && !r.edited);
    assert_eq!((r.error.as_deref(), r.source), (Some("a test failed after the edit"), None));
    let r = run_baseline("a".into(), "b", Err("1:1".into()), s);
    assert!(!r.ok && !r.compiles);
    assert_eq!((r.error.as_deref(), r.changed_lines), (Some("1:1"), 1));
}

#[test]
fn the_baseline_is_judged_by_its_reply_and_charged_for_it() {
    let reply = completion(
        "{\"usage\":{\"input_tokens\":1000,\"output_tokens\":500},\"content\":[{\"type\":\"text\",\
          \"text\":\"```\\na\\nx\\n```\"}]}",
    );
    let mut g = guard(Budget { max_output_tokens: 100, ..Budget::default() });
    g.record(&reply.usage).unwrap_err();
    let r = settle_baseline(&mut g, &reply, "a\nb", Ok(vec![]));
    assert_eq!(r.source.as_deref(), Some("a\nx"));
    assert!(r.ok && r.edited, "a crossed ceiling does not spoil the result");
    assert_eq!(r.changed_lines, 1);
    assert_eq!((r.spend.requests, r.spend.input_tokens, r.spend.output_tokens), (2, 2_000, 1_000));
    assert_eq!(r.spend.usd, 3_500_000);
    assert_eq!(g.spend().usd, r.spend.usd);
}
