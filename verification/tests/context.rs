use bucketcode::bench::{fanout_sweep, overhead, program, sweep, sweep_with_fanout, to_csv, Costs, Row};
use bucketcode::prompt::{reply_schema, user_turn, PreviousAttempt, SYSTEM, SYSTEM_GENERATE};
use bucketcode::strategy::{build, whole_file, Measured, Strategy};

fn sub(text: &str, tokens: usize) -> Option<Measured> {
    Some(Measured { text: text.into(), tokens })
}

#[test]
fn strategies_have_names() {
    for (s, names) in [
        (Strategy::WholeFile, vec!["whole_file", "whole-file", "file", "classic"]),
        (Strategy::Subgraph, vec!["subgraph", "buckets", "bucket"]),
        (Strategy::Auto, vec!["auto"]),
    ] {
        assert_eq!(s.as_str(), names[0]);
        for n in names {
            assert_eq!(n.parse::<Strategy>(), Ok(s));
        }
    }
    assert_eq!(
        Strategy::parse("all"),
        Err("unknown strategy 'all' (expected whole_file, subgraph, or auto)".to_string())
    );
}

#[test]
fn the_file_names_its_target() {
    assert_eq!(whole_file("SRC", "cents"), "# edit the bucket `cents` in this file\n\nSRC\n");
}

#[test]
fn auto_sends_the_cheaper() {
    let r = build(Strategy::Auto, "SRC", "t", 100, sub("pack", 40)).unwrap();
    assert_eq!((r.strategy, r.tokens, r.alternative_tokens), (Strategy::Subgraph, 40, 100));
    assert_eq!(r.text, "pack");
    let r = build(Strategy::Auto, "SRC", "t", 40, sub("pack", 40)).unwrap();
    assert_eq!((r.strategy, r.tokens, r.alternative_tokens), (Strategy::WholeFile, 40, 40));
    assert_eq!(r.text, whole_file("SRC", "t"));
    let r = build(Strategy::Auto, "SRC", "t", 40, None).unwrap();
    assert_eq!((r.strategy, r.tokens, r.alternative_tokens), (Strategy::WholeFile, 40, 0));
}

#[test]
fn a_named_strategy_is_kept_to() {
    let r = build(Strategy::WholeFile, "SRC", "t", 100, sub("pack", 40)).unwrap();
    assert_eq!((r.strategy, r.tokens, r.alternative_tokens), (Strategy::WholeFile, 100, 40));
    let r = build(Strategy::Subgraph, "SRC", "t", 10, sub("pack", 40)).unwrap();
    assert_eq!((r.strategy, r.tokens, r.alternative_tokens), (Strategy::Subgraph, 40, 10));
    assert_eq!(
        build(Strategy::Subgraph, "SRC", "t", 10, None).unwrap_err(),
        "cannot build a subgraph for t; try --strategy whole_file"
    );
}

#[test]
fn the_first_turn_is_the_request_and_the_context() {
    assert_eq!(user_turn("halve it", "CTX", 0, None), "# what to change\n\nhalve it\n\nCTX");
}

#[test]
fn a_retry_says_why() {
    let prev = PreviousAttempt {
        body: "x".into(),
        notes: "  think \n".into(),
        rejections: vec!["a".into(), "b".into()],
    };
    assert_eq!(
        user_turn("g", "c", 2, Some(&prev)),
        "# what to change\n\ng\n\nc\n# attempt 1 was rejected\n\nYou wrote this body:\n\n```\nx\n```\n\
         \nIt was rejected:\n\n- a\n- b\n\nYour notes from that attempt:\n\nthink\n\
         \nFix the cause. Do not repeat the same body.\n"
    );
    let silent = PreviousAttempt { notes: " \n".into(), ..prev };
    assert!(!user_turn("g", "c", 2, Some(&silent)).contains("Your notes"));
}

#[test]
fn the_reply_needs_all_four_fields() {
    let text = reply_schema().to_text();
    assert!(text.contains("\"required\":[\"notes\",\"description\",\"body\",\"confidence\"]"), "{text}");
    assert!(text.contains("\"enum\":[\"high\",\"medium\",\"low\"]"));
    assert!(text.starts_with("{\"additionalProperties\":false,\"properties\":{\"body\":{\"description\":\"The new body expression only"));
    assert!(SYSTEM.starts_with("You are editing a program written in bucketlang."));
    assert!(SYSTEM_GENERATE.starts_with("\n\n# You are writing a new program"));
}

#[test]
fn a_program_without_helpers() {
    assert_eq!(
        program(0, 3),
        "price_total(p: Num) -> Num \"total price for two of an item including sales tax\" {\n  p * 2 * 1.08\n}\n\n\
         @entry\nmain() -> Num \"checkout total\" {\n  price_total(19.99)\n}\n"
    );
}

#[test]
fn a_program_with_a_real_call_graph() {
    assert_eq!(
        program(3, 2),
        "price_total(p: Num) -> Num \"total price for two of an item including sales tax\" {\n  helper_0(p) + helper_1(p)\n}\n\n\
         helper_0(x: Num) -> Num \"apply adjustment number 0 to a running order total\" {\n  helper_1(x) + 0\n}\n\n\
         helper_1(x: Num) -> Num \"apply adjustment number 1 to a running order total\" {\n  helper_2(x) + 1\n}\n\n\
         helper_2(x: Num) -> Num \"apply adjustment number 2 to a running order total\" {\n  x + 2 * 2 - 1\n}\n\n\
         @entry\nmain() -> Num \"checkout total\" {\n  price_total(19.99)\n}\n"
    );
    assert_eq!(program(2, 9), program(2, 2), "fan-out is capped by the helpers");
    assert!(program(2, 2).contains("helper_1(x: Num) -> Num \"apply adjustment number 1 to a running order total\" {\n  x + 1 * 2 - 1\n}"));
}

fn cells(r: &Row) -> [usize; 5] {
    [r.buckets, r.fanout, r.file_tokens, r.subgraph_tokens, r.agent_overhead]
}

#[test]
fn rows_report_all_three_costs() {
    let c = |f, s| Costs { file_tokens: f, subgraph_tokens: s };
    let rows = sweep(&[2, 10], &[c(50, 20), c(300, 25)], 7);
    assert_eq!(cells(&rows[0]), [4, 2, 50, 20, 7]);
    assert_eq!(cells(&rows[1]), [12, 3, 300, 25, 7]);
    assert_eq!(rows[1].context_ratio(), (300, 25));
    assert_eq!(rows[1].effective_ratio(), (307, 32));
    let rows = fanout_sweep(82, &[0, 100], &[c(1, 0), c(2, 3)], 0);
    assert_eq!(cells(&rows[0]), [84, 0, 1, 0, 0]);
    assert_eq!(cells(&rows[1]), [84, 82, 2, 3, 0]);
    assert_eq!(rows[0].context_ratio(), (1, 1), "nothing counts as one token");
    assert_eq!(rows[0].effective_ratio(), (1, 1));
    assert_eq!(sweep_with_fanout(&[], 1, &[], 0).len(), 0);
}

#[test]
fn overhead_is_a_sum() {
    assert_eq!(overhead(&vec![]), Some(0));
    assert_eq!(overhead(&vec![1, 2, 3]), Some(6));
    assert_eq!(overhead(&vec![usize::MAX, 0, 1]), None);
}

#[test]
fn the_table_has_one_line_per_row() {
    let rows = sweep(&[1], &[Costs { file_tokens: 8, subgraph_tokens: 4 }], 2);
    assert_eq!(
        to_csv(&rows, &[("2.000".into(), "1.667".into())]),
        "buckets,fanout,file_tokens,subgraph_tokens,agent_overhead,context_ratio,effective_ratio\n3,1,8,4,2,2.000,1.667\n"
    );
    assert_eq!(
        to_csv(&[], &[]),
        "buckets,fanout,file_tokens,subgraph_tokens,agent_overhead,context_ratio,effective_ratio\n"
    );
}
