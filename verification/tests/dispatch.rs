use bucketcode::dispatch::{dispatch, is_ready, target_name, Edit, Kind, Step, Workspace};
use bucketcode::gate::{check_addition, check_change, check_edit, report_tests, Recompiled};
use bucketcode::json::Json;
use bucketcode::llm::ToolCall;
use bucketcode::program::{Bucket, Node, Param, Program, Span, TestOutcome};
use bucketcode::surgery::{fits, has_brace, replace_description};

const SOURCE: &str = "\
@test double(3) == 6
double(x: Num) -> Num \"multiply by two\" {
  x * 2
}

@entry
@test main() == 42
main() -> Num \"the answer, doubled\" {
  double(21)
}
";

/// Where the body stands whose declaration begins with `head`.
fn span(source: &str, head: &str) -> Span {
    let at = source.find(head).unwrap();
    let start = at + source[at..].find('{').unwrap() + 1;
    let end = start + source[start..].find('}').unwrap();
    Span { start, end }
}

fn program(source: &str) -> Program {
    let bucket = |address: &str, label: &str, desc: &str, params: Vec<Param>, body: Option<Span>| Bucket {
        address: address.into(),
        user: true,
        label: Some(label.into()),
        desc: desc.into(),
        params,
        ret: "Num".into(),
        body,
    };
    let x = vec![Param { name: "x".into(), ty: "Num".into() }];
    let mut pow = bucket("#c1", "pow", "raise", Vec::new(), None);
    pow.user = false;
    Program {
        buckets: vec![
            bucket("#b1", "double", "multiply by two", x, Some(span(source, "double(x"))),
            bucket("#b2", "main", "the answer, doubled", Vec::new(), Some(span(source, "main() ->"))),
            pow,
        ],
        graph: vec![
            Node { address: "#b1".into(), calls: vec!["#c1".into()], called_by: vec!["#b1".into(), "#b2".into(), "#x".into()] },
            Node { address: "#b2".into(), calls: vec!["#b1".into()], called_by: vec![] },
            Node { address: "#c1".into(), calls: vec![], called_by: vec!["#b1".into()] },
        ],
        hashes: vec![("#b1".into(), "h1".into()), ("#b2".into(), "h2".into())],
    }
}

fn call(name: &str, input: &str) -> ToolCall {
    ToolCall { id: "1".into(), name: name.into(), input: Json::from_text(input).unwrap() }
}

fn resolve(name: &str) -> Option<String> {
    match name {
        "double" | "#b1" => Some("#b1".into()),
        "main" | "#b2" => Some("#b2".into()),
        "pow" | "#c1" => Some("#c1".into()),
        _ => None,
    }
}

fn step(name: &str, input: &str) -> Step {
    let c = call(name, input);
    let resolved = target_name(&c).and_then(|n| resolve(&n));
    let ws = Workspace::new(SOURCE.into());
    let p = program(SOURCE);
    assert!(is_ready(&ws, &p, &c, &resolved));
    dispatch(&ws, &Ok(p), &c, &resolved)
}

fn done(name: &str, input: &str) -> (String, bool) {
    match step(name, input) {
        Step::Done(o) => (o.text, o.is_error),
        other => panic!("{other:?}"),
    }
}

fn candidate(name: &str, input: &str) -> (String, Kind) {
    match step(name, input) {
        Step::Check(c, k) => (c, k),
        other => panic!("{other:?}"),
    }
}

fn test(id: &str, subject: Option<&str>, expect_error: bool, error: Option<&str>) -> TestOutcome {
    TestOutcome {
        id: id.into(),
        subject: subject.map(String::from),
        desc: format!("desc of {id}"),
        expect_error,
        error: error.map(String::from),
    }
}

fn compiled(hashes: &[(&str, &str)], tests: Vec<TestOutcome>) -> Result<Recompiled, String> {
    Ok(Recompiled {
        hashes: hashes.iter().map(|(a, b)| (a.to_string(), b.to_string())).collect(),
        tests,
    })
}

#[test]
fn a_broken_program_is_reported_first() {
    let ws = Workspace::new(SOURCE.into());
    match dispatch(&ws, &Err("1:1 bad".into()), &call("list_buckets", "{}"), &None) {
        Step::Done(o) => {
            assert!(o.is_error);
            assert_eq!(o.text, "the program does not currently compile:\n1:1 bad");
        }
        other => panic!("{other:?}"),
    }
}

#[test]
fn an_unknown_tool_is_refused() {
    assert_eq!(done("format_disk", "{}"), ("no such tool: format_disk".into(), true));
}

#[test]
fn the_list_shows_user_buckets() {
    let (text, err) = done("list_buckets", "{}");
    assert!(!err);
    assert_eq!(
        text,
        format!(
            "address      label / contract                     description\n\
             #b1  {:36}  \"multiply by two\"\n#b2  {:36}  \"the answer, doubled\"\n",
            "double(x: Num) -> Num", "main() -> Num"
        )
    );
}

#[test]
fn finding_answers_with_a_shortlist() {
    assert_eq!(
        done("find_buckets", "{\"query\":\"multiply\"}"),
        ("# candidate buckets\n#b1  double(x: Num) -> Num  \"multiply by two\"\n".into(), false)
    );
    assert_eq!(
        done("find_buckets", "{\"query\":\"zebra\"}"),
        ("nothing matched \"zebra\". Try list_buckets to see everything.".into(), false)
    );
}

#[test]
fn reading_shows_the_body_as_written() {
    match step("read_bucket", "{\"address\":\" double \"}") {
        Step::ReadBucket(a, b) => {
            assert_eq!(a, " double ");
            assert_eq!(b.as_deref(), Some("\n  x * 2"));
        }
        other => panic!("{other:?}"),
    }
    match step("read_bucket", "{\"address\":\"pow\"}") {
        Step::ReadBucket(a, b) => assert_eq!((a.as_str(), b), ("pow", None)),
        other => panic!("{other:?}"),
    }
}

#[test]
fn the_graph_shows_structure() {
    assert_eq!(
        done("bucket_graph", "{}"),
        (
            "double (#b1)\n  calls    -> pow\n  called by <- double, main\n\
             main (#b2)\n  calls    -> double\n  called by <- -\n"
                .into(),
            false
        )
    );
    assert_eq!(
        done("bucket_graph", "{\"address\":\"main\"}").0,
        "main (#b2)\n  calls    -> double\n  called by <- -\n"
    );
    assert_eq!(done("bucket_graph", "{\"address\":\"nobody\"}").0, "no matching buckets\n");
    assert_eq!(done("bucket_graph", "{\"address\":\"pow\"}").0, "no matching buckets\n");
}

#[test]
fn an_edit_is_spliced_and_redescribed() {
    let e: Edit = match step("edit_bucket", "{\"address\":\"double\",\"body\":\"x + x\",\"description\":\"add \\\"it\\\" up\"}") {
        Step::Splice(e) => e,
        other => panic!("{other:?}"),
    };
    assert_eq!((e.address.as_str(), e.body.as_str(), e.target.as_str()), ("double", "x + x", "#b1"));
    let spliced = SOURCE.replace("x * 2", "x + x");
    assert!(e.describable(&spliced));
    assert_eq!(e.candidate(spliced), SOURCE.replace("x * 2", "x + x").replace("multiply by two", "add 'it' up"));
    assert_eq!(done("edit_bucket", "{\"address\":\"nobody\"}"), ("unknown bucket nobody".into(), true));
}

#[test]
fn a_patch_replaces_one_snippet() {
    let (c, k) = candidate("patch_bucket", "{\"address\":\"double\",\"find\":\"* 2\",\"replace\":\"+ x\"}");
    assert_eq!(c, SOURCE.replace("x * 2", "x + x"));
    assert!(matches!(k, Kind::Patched(ref a, ref t) if a == "double" && t == "#b1"));
    let (c, _) = candidate(
        "patch_bucket",
        "{\"address\":\"double\",\"find\":\"* 2\",\"replace\":\"+ x\",\"description\":\"add it to itself\"}",
    );
    assert_eq!(c, SOURCE.replace("x * 2", "x + x").replace("multiply by two", "add it to itself"));
}

#[test]
fn a_patch_must_be_unambiguous() {
    assert_eq!(
        done("patch_bucket", "{\"address\":\"double\",\"find\":\"\",\"replace\":\"\"}"),
        ("`find` cannot be empty".into(), true)
    );
    assert_eq!(
        done("patch_bucket", "{\"address\":\"nobody\",\"find\":\"x\"}"),
        ("unknown bucket nobody".into(), true)
    );
    assert_eq!(
        done("patch_bucket", "{\"address\":\"pow\",\"find\":\"x\"}"),
        ("pow has no editable body here (it may be a core or an import)".into(), true)
    );
    assert_eq!(
        done("patch_bucket", "{\"address\":\"double\",\"find\":\"y\"}"),
        (
            "`find` does not appear in the body of double. The body, exactly as written:\n---\nx * 2\n---".into(),
            true
        )
    );
    assert_eq!(
        done("patch_bucket", "{\"address\":\"double\",\"find\":\" \"}"),
        (
            "`find` appears 4 times in double; include enough surrounding text to make it unique. The body is:\nx * 2"
                .into(),
            true
        )
    );
}

#[test]
fn a_patch_and_its_tests_land_in_one_change() {
    let (c, _) = candidate(
        "patch_bucket",
        "{\"address\":\"main\",\"find\":\"21\",\"replace\":\"1000\",\"description\":\"a \\\"big\\\" one\",\
          \"tests\":[{\"call\":\" main() \",\"expects\":\" 2000 \"},{\"call\":\"\"},{\"call\":\"main(1)\",\"expect_error\":true}]}",
    );
    let want = "@test double(3) == 6\ndouble(x: Num) -> Num \"multiply by two\" {\n  x * 2\n}\n\n\
                @test main() == 2000\n@test_error main(1)\n@entry\nmain() -> Num \"a 'big' one\" {\n  double(1000)\n}\n";
    assert_eq!(c, want);
    assert_eq!(
        done(
            "patch_bucket",
            "{\"address\":\"main\",\"find\":\"21\",\"replace\":\"1\",\"tests\":[{\"call\":\"main()\"}]}"
        ),
        ("test `main()` needs `expects`, or `expect_error: true`".into(), true)
    );
}

#[test]
fn a_bucket_in_use_is_not_deleted() {
    assert_eq!(
        done("delete_bucket", "{\"address\":\"double\"}"),
        ("double is still called by main. Change those first.".into(), true)
    );
    let (c, k) = candidate("delete_bucket", "{\"address\":\"main\"}");
    assert_eq!(c, "@test double(3) == 6\ndouble(x: Num) -> Num \"multiply by two\" {\n  x * 2\n}\n\n");
    assert!(matches!(k, Kind::Deleted(ref a) if a == "main"));
    assert_eq!(
        done("delete_bucket", "{\"address\":\"pow\"}"),
        ("pow is still called by double. Change those first.".into(), true)
    );
}

#[test]
fn a_signature_keeps_annotations_and_body() {
    let (c, k) = candidate(
        "set_signature",
        "{\"address\":\"double\",\"label\":\" twice \",\"params\":[{\"name\":\"y\",\"type\":\"Str\"},{\"name\":\"z\"}],\"returns\":\"Str\"}",
    );
    assert_eq!(c, SOURCE.replace("double(x: Num) -> Num", "twice(y: Str) -> Str"));
    match k {
        Kind::Resigned(t, note) => {
            assert_eq!(t, "#b1");
            assert_eq!(note, "double is now twice(y: Str) -> Str.");
        }
        other => panic!("{other:?}"),
    }
    let (c, _) = candidate("set_signature", "{\"address\":\"main\"}");
    assert_eq!(c, SOURCE, "nothing given, nothing changed");
    assert_eq!(
        done("set_signature", "{\"address\":\"pow\"}"),
        ("pow has no editable declaration here".into(), true)
    );
}

#[test]
fn tests_are_replaced_and_the_entry_kept() {
    let (c, k) = candidate("set_tests", "{\"address\":\"main\",\"tests\":[]}");
    assert_eq!(c, SOURCE.replace("@entry\n@test main() == 42\n", "@entry\n"));
    assert!(matches!(k, Kind::Retested(_, _, 0)));
    let (c, k) = candidate("set_tests", "{\"address\":\"double\",\"tests\":[{\"call\":\"double(1)\",\"expects\":\"2\"}]}");
    assert_eq!(c, SOURCE.replace("@test double(3) == 6", "@test double(1) == 2"));
    assert!(matches!(k, Kind::Retested(_, _, 1)));
    assert_eq!(
        done("set_tests", "{\"address\":\"double\",\"tests\":[{\"call\":\"f()\",\"expects\":\" \"}]}"),
        ("test `f()` needs `expects`, or `expect_error: true`".into(), true)
    );
    assert_eq!(
        done("set_tests", "{\"address\":\"pow\",\"tests\":[]}"),
        ("pow has no editable declaration here".into(), true)
    );
}

#[test]
fn a_new_bucket_is_appended() {
    let (c, k) = candidate(
        "add_bucket",
        "{\"label\":\" four \",\"params\":[{\"name\":\"x\",\"type\":\"Num\"}],\"returns\":\"Num\",\
          \"description\":\"times \\\"four\\\"\",\"body\":\"\\n y = x  \\ny * 4\\n\"}",
    );
    assert_eq!(
        c,
        format!("{}\n\nfour(x: Num) -> Num \"times 'four'\" {{\n  y = x\n  y * 4\n}}\n", SOURCE.trim_end())
    );
    assert!(matches!(k, Kind::Added(ref l) if l == "four"));
    assert_eq!(done("add_bucket", "{\"description\":\"d\"}"), ("label is required".into(), true));
    assert_eq!(
        done("add_bucket", "{\"label\":\"f\",\"description\":\" \"}").0,
        "a description is required — it is how this bucket is found and how it is summarised to other buckets"
    );
    assert_eq!(
        done("add_bucket", "{\"label\":\"double\",\"description\":\"d\"}").0,
        "a bucket named double already exists; use edit_bucket to change it"
    );
    let (c, _) = candidate("add_bucket", "{\"label\":\"f\",\"description\":\"d\"}");
    assert!(c.ends_with("}\n\nf() -> Num \"d\" {\n\n}\n"), "{c}");
}

#[test]
fn files_and_commands_are_handed_on() {
    assert!(matches!(step("read_file", "{\"path\":\"a\"}"), Step::ReadFile(p) if p == "a"));
    assert!(matches!(step("write_file", "{\"path\":\"a\",\"contents\":\"c\"}"), Step::WriteFile(p, c) if p == "a" && c == "c"));
    assert!(matches!(step("run_command", "{\"argv\":[\"ls\",1,\"-l\"]}"), Step::Run(v) if v == ["ls", "-l"]));
    assert_eq!(done("run_command", "{\"argv\":[]}"), ("argv must be a non-empty array".into(), true));
    assert_eq!(done("run_command", "{}"), ("argv must be a non-empty array".into(), true));
    assert!(matches!(step("run_tests", "{}"), Step::RunTests));
}

#[test]
fn a_rejected_change_leaves_the_source() {
    let p = program(SOURCE);
    let mut ws = Workspace::new(SOURCE.into());
    let patched = || Kind::Patched("double".into(), "#b1".into());
    let bad = [
        (Err("2:3 type error".to_string()), "2:3 type error".to_string()),
        (
            compiled(&[("#b1", "new"), ("#b2", "other")], vec![]),
            "that was not a clean change: 0 bucket(s) appeared (expected 0), 0 vanished (expected 0), and 1 other bucket(s) \
             changed. Write only what was asked and do not close a brace you did not open."
                .to_string(),
        ),
        (
            compiled(&[("#b1", "new"), ("#b3", "h2")], vec![]),
            "that was not a clean change: 1 bucket(s) appeared (expected 0), 1 vanished (expected 0), and 0 other bucket(s) \
             changed. Write only what was asked and do not close a brace you did not open."
                .to_string(),
        ),
    ];
    for (c, message) in bad {
        let out = ws.settle("candidate".into(), patched(), &p.hashes, &c);
        assert!(out.is_error);
        assert_eq!(out.text, message);
        assert_eq!(ws.source(), SOURCE);
        assert!(!ws.is_dirty());
    }
    let broken = compiled(
        &[("#b1", "new"), ("#b2", "h2")],
        vec![test("t1", Some("double"), false, None), test("t2", None, true, None)],
    );
    let out = ws.settle("candidate".into(), patched(), &p.hashes, &broken);
    assert!(out.is_error);
    assert!(out.text.starts_with("that change broke the test on t2: `desc of t2`.\n\nIf the behaviour was *meant* to change"));
    assert!(!ws.is_dirty());
    assert!(ws.into_changed_source().is_none());
}

#[test]
fn an_accepted_change_is_taken_over() {
    let p = program(SOURCE);
    let ok = compiled(
        &[("#b1", "new"), ("#b2", "h2")],
        vec![test("t1", Some("double"), false, None), test("t2", None, true, Some("boom"))],
    );
    for (kind, message) in [
        (Kind::Patched("double".into(), "#b1".into()), "patched double. 2 test(s) pass."),
        (Kind::Resigned("#b1".into(), "note".into()), "note"),
        (
            Kind::Retested("double".into(), "#b1".into(), 3),
            "double now has 3 test(s); all 2 test(s) in the program pass.",
        ),
    ] {
        let mut ws = Workspace::new(SOURCE.into());
        let out = ws.settle("candidate".into(), kind, &p.hashes, &ok);
        assert_eq!((out.text.as_str(), out.is_error), (message, false));
        assert_eq!(ws.source(), "candidate");
        assert!(ws.is_dirty());
        assert_eq!(ws.into_changed_source().as_deref(), Some("candidate"));
    }
}

#[test]
fn deleting_and_adding_move_exactly_one_bucket() {
    let p = program(SOURCE);
    let mut ws = Workspace::new(SOURCE.into());
    let out = ws.settle("c".into(), Kind::Deleted("main".into()), &p.hashes, &compiled(&[("#b1", "h1")], vec![]));
    assert_eq!((out.text.as_str(), out.is_error), ("deleted main.", false));
    let out = ws.settle("d".into(), Kind::Deleted("main".into()), &p.hashes, &compiled(&[], vec![]));
    assert!(out.is_error);
    assert_eq!(ws.source(), "c");

    let more = compiled(&[("#b1", "h1"), ("#b2", "h2"), ("#b3", "h3")], vec![test("t", None, false, None)]);
    let out = ws.settle("e".into(), Kind::Added("four".into()), &p.hashes, &more);
    assert_eq!((out.text.as_str(), out.is_error), ("added four as #b3. All 1 test(s) still pass.", false));
    let moved = compiled(&[("#b1", "x"), ("#b3", "h3")], vec![]);
    assert_eq!(
        check_addition(&p.hashes, &moved, "four").unwrap_err(),
        "adding four was not clean: 1 bucket(s) appeared and 2 existing bucket(s) changed. Write only the body expression and \
         do not close a brace you did not open."
    );
    let broken = compiled(&[("#b1", "h1"), ("#b2", "h2"), ("#b3", "h3")], vec![test("t", Some("s"), false, Some("e"))]);
    assert_eq!(
        check_addition(&p.hashes, &broken, "four").unwrap_err(),
        "adding four broke an existing test (s）"
    );
    assert_eq!(check_change(&p.hashes, &more, 1, 0, &vec![]), Ok(1));
}

#[test]
fn an_edit_passes_three_gates_in_order() {
    let e = |s: &str| Err(s.to_string());
    assert_eq!(check_edit(Err("c".into()), Err("a".into()), Err("t".into())), e("c"));
    assert_eq!(
        check_edit(Ok(()), Err("a".into()), Err("t".into())),
        e("a\n\nhint: write only the expression; do not close the bucket's brace")
    );
    assert_eq!(check_edit(Ok(()), Ok(()), Err("t".into())), e("t"));
    assert_eq!(check_edit(Ok(()), Ok(()), Ok((3, 2))), Ok("accepted. 2/3 related test(s) pass.".to_string()));
    let mut ws = Workspace::new("a".into());
    assert!(ws.settle_edit("b".into(), Ok(()), Err("x".into()), Ok((0, 0))).is_error);
    assert_eq!((ws.source(), ws.is_dirty()), ("a", false));
    assert!(!ws.settle_edit("b".into(), Ok(()), Ok(()), Ok((0, 0))).is_error);
    assert_eq!((ws.source(), ws.is_dirty()), ("b", true));
}

#[test]
fn the_test_report_names_failures() {
    let (text, err) = report_tests(&vec![
        test("t1", Some("double"), false, None),
        test("t2", Some("main"), false, Some("1:1 no")),
        test("t3", None, true, None),
        test("t4", None, true, Some("meant")),
    ]);
    assert!(err);
    assert_eq!(text, "2/4 tests passed\n\nmain: 1:1 no\n\nt3: expected an error, got a value\n");
    assert_eq!(report_tests(&vec![]), ("0/0 tests passed\n".to_string(), false));
}

#[test]
fn a_description_is_found_from_the_body() {
    let s = span(SOURCE, "main() ->");
    assert!(fits(SOURCE, s) && has_brace(SOURCE, s));
    assert_eq!(replace_description(SOURCE, s, "a \"b\""), SOURCE.replace("the answer, doubled", "a 'b'"));
    let bare = "f() -> Num {\n 1\n}\n";
    assert_eq!(replace_description(bare, span(bare, "f()"), "d"), bare, "no description, no change");
    assert!(!fits("é", Span { start: 1, end: 2 }));
    assert!(!fits("ab", Span { start: 2, end: 1 }));
    assert!(!fits("ab", Span { start: 0, end: 3 }));
}

#[test]
fn names_to_resolve_are_trimmed() {
    let name = |n: &str, i: &str| target_name(&call(n, i));
    assert_eq!(name("read_bucket", "{\"address\":\" a \"}").as_deref(), Some("a"));
    assert_eq!(name("edit_bucket", "{}").as_deref(), Some(""));
    assert_eq!(name("add_bucket", "{\"label\":\" l\"}").as_deref(), Some("l"));
    assert_eq!(name("bucket_graph", "{}"), None);
    assert_eq!(name("bucket_graph", "{\"address\":\"g\"}").as_deref(), Some("g"));
    assert_eq!(name("list_buckets", "{\"address\":\"g\"}"), None);
}

#[test]
fn a_span_that_does_not_fit_is_noticed() {
    let ws = Workspace::new("short".into());
    let p = program(SOURCE);
    let c = call("delete_bucket", "{\"address\":\"main\"}");
    assert!(!is_ready(&ws, &p, &c, &Some("#b2".into())));
    assert!(is_ready(&ws, &p, &call("list_buckets", "{}"), &None));
}
