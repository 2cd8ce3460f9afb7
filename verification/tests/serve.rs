use bucketcode::agent::{run, run_baseline};
use bucketcode::bench::{sweep, Costs};
use bucketcode::budget::{Budget, Guard, Spend, DOLLAR};
use bucketcode::dispatch::Workspace;
use bucketcode::index::search;
use bucketcode::json::Json;
use bucketcode::llm::DEFAULT_MODEL;
use bucketcode::payload;
use bucketcode::payload::Measures;
use bucketcode::program::{Bucket, Node, Program, TestCase, TestOutcome};
use bucketcode::sandbox::ApprovalMode;
use bucketcode::serve::{
    body_length, body_text, head_of, is_last_header, json_err, json_ok, not_found, page, param, parse_request_line,
    read_length, route, split_target, urldecode, Route,
};
use bucketcode::strategy::{build, Measured, Strategy};

fn json(s: &str) -> Json {
    Json::from_text(s).unwrap()
}

#[test]
fn a_request_line_has_a_method_and_a_target() {
    let p = |s: &str| parse_request_line(s);
    assert_eq!(p("GET /x?y HTTP/1.1\r\n"), ("GET".into(), "/x?y".into()));
    assert_eq!(p("POST"), ("POST".into(), "/".into()));
    assert_eq!(p(""), ("".into(), "/".into()));
    assert_eq!(split_target("/a?b=1?c"), ("/a".into(), "b=1?c".into()));
    assert_eq!(split_target("/a"), ("/a".into(), "".into()));
}

#[test]
fn headers_announce_the_body() {
    let h = |v: &[&str]| body_length(&v.iter().map(|s| s.to_string()).collect());
    assert_eq!(h(&[]), 0);
    assert_eq!(h(&["Host: x\r\n", "Content-Length: 12\r\n"]), 12);
    assert_eq!(h(&["CONTENT-LENGTH:7", "content-length: 9"]), 9, "the last one counts");
    assert_eq!(h(&["Content-Length: many"]), 0);
    assert_eq!(h(&["X-Content-Length: 3"]), 0);
    assert_eq!(read_length("content-length: 4 "), Some(4));
    assert_eq!(read_length("content-length: -4"), Some(0));
    assert_eq!(read_length("Content-Length: 4"), None, "only lower case is read");
    assert!(is_last_header("\r\n") && is_last_header("") && !is_last_header("a"));
    assert_eq!(body_text("hé".as_bytes()), "hé");
    assert_eq!(body_text(&[0x61, 0xff]), "a\u{fffd}");
}

#[test]
fn escapes_are_resolved() {
    assert_eq!(urldecode("round+prices%20down"), "round prices down");
    assert_eq!(urldecode("h%C3%a9"), "hé");
    assert_eq!(urldecode("%zz%1"), " %1", "what is no number is a space, a cut escape stays");
    assert_eq!(urldecode("100%"), "100%");
    assert_eq!(urldecode("%41%4"), "A%4");
    assert_eq!(urldecode("%+d"), "\r");
    assert_eq!(urldecode("%ff"), "\u{fffd}");
    assert_eq!(urldecode("plain é"), "plain é");
    assert_eq!(urldecode("%é!"), " !");
}

#[test]
fn parameters_are_found_by_key() {
    assert_eq!(param("a=1&b=2+3&b=4", "b").as_deref(), Some("2 3"));
    assert_eq!(param("a&b=x=y", "b").as_deref(), Some("x=y"));
    assert_eq!(param("a&b", "a"), None);
    assert_eq!(param("", "a"), None);
    assert_eq!(param("a=", "a").as_deref(), Some(""));
}

#[test]
fn every_route_is_known_by_method_and_path() {
    for (m, p, r) in [
        ("GET", "/", Route::Page),
        ("GET", "/api/status", Route::Status),
        ("GET", "/api/program", Route::Program),
        ("GET", "/api/find", Route::Find),
        ("GET", "/api/context", Route::Context),
        ("GET", "/api/tests", Route::Tests),
        ("GET", "/api/bench", Route::Bench),
        ("GET", "/api/fanout", Route::Fanout),
        ("GET", "/api/subgraph_costs", Route::SubgraphCosts),
        ("GET", "/api/runs", Route::Runs),
        ("POST", "/api/edit", Route::Edit),
        ("POST", "/api/experiment", Route::Experiment),
        ("POST", "/api/open", Route::Open),
        ("POST", "/", Route::NotFound),
        ("GET", "/api/edit", Route::NotFound),
        ("PUT", "/", Route::NotFound),
    ] {
        assert_eq!(route(m, p), r, "{m} {p}");
    }
}

#[test]
fn answers_have_a_head() {
    let a = json_ok(&json("{\"b\":1,\"a\":2}"));
    assert_eq!(a.payload, "{\"a\":2,\"b\":1}");
    assert_eq!(
        head_of(&a),
        "HTTP/1.1 200 OK\r\nContent-Type: application/json\r\nContent-Length: 13\r\nCache-Control: no-store\r\n\r\n"
    );
    assert_eq!(json_err("no \"x\"").payload, "{\"error\":\"no \\\"x\\\"\"}");
    let n = not_found();
    assert_eq!((n.status, n.ctype, n.payload.as_str()), ("404 Not Found", "text/plain", "not found"));
    let p = page("é".into());
    assert!(head_of(&p).contains("Content-Type: text/html; charset=utf-8\r\nContent-Length: 2\r\n"));
}

fn bucket(address: &str, user: bool, label: Option<&str>, desc: &str) -> Bucket {
    Bucket {
        address: address.into(),
        user,
        label: label.map(String::from),
        desc: desc.into(),
        params: Vec::new(),
        ret: "Num".into(),
        body: None,
    }
}

fn program() -> Program {
    Program {
        buckets: vec![
            bucket("#b1", true, Some("one"), "first"),
            bucket("#b2", true, None, "second"),
            bucket("#c1", false, Some("core"), "built in"),
        ],
        graph: vec![Node {
            address: "#b1".into(),
            calls: vec!["#b2".into(), "#c1".into(), "#gone".into()],
            called_by: vec!["#b2".into()],
        }],
        hashes: Vec::new(),
    }
}

#[test]
fn the_map_lists_user_buckets() {
    let m = |body: &str| Measures { complexity: 3, body: body.into(), desc_tokens: 4, body_tokens: 5 };
    let tests = vec![
        TestCase { subject: Some("one".into()), desc: "t1".into() },
        TestCase { subject: None, desc: "t2".into() },
    ];
    let v = payload::program_map("f.bkt", "SRC", &program(), &tests, &vec![m("x"), m("y"), m("z")], 10, 20);
    assert_eq!(
        v.to_text(),
        "{\"buckets\":[{\"address\":\"#b1\",\"body\":\"x\",\"body_tokens\":5,\"called_by\":[\"#b2\"],\"calls\":[\"#b2\"],\
         \"complexity\":3,\"contract\":\"() -> Num\",\"desc\":\"first\",\"desc_tokens\":4,\"label\":\"one\",\"tests\":[\"t1\"]},\
         {\"address\":\"#b2\",\"body\":\"y\",\"body_tokens\":5,\"called_by\":[],\"calls\":[],\"complexity\":3,\
         \"contract\":\"() -> Num\",\"desc\":\"second\",\"desc_tokens\":4,\"label\":null,\"tests\":[\"t2\"]}],\
         \"file\":\"f.bkt\",\"file_tokens\":20,\"map_tokens\":10,\"source\":\"SRC\",\"tests\":2}"
    );
    assert_eq!(
        payload::map_text(&program()),
        "#b1 one() -> Num \"first\"\n#b2 () -> Num \"second\"\n"
    );
}

#[test]
fn a_search_is_answered_with_its_scores() {
    let found = search(&program(), "first", 8);
    let v = payload::find("first", &found, &vec![json("0.5")]);
    assert_eq!(
        v.to_text(),
        "{\"matches\":[{\"address\":\"#b1\",\"contract\":\"() -> Num\",\"desc\":\"first\",\"label\":\"one\",\
         \"matched\":[\"first\"],\"score\":0.5}],\"query\":\"first\"}"
    );
}

#[test]
fn both_arms_are_compared() {
    let file = build(Strategy::WholeFile, "S", "t", 9, None);
    let sub = build(Strategy::Subgraph, "S", "t", 9, None);
    assert_eq!(
        payload::context("t", &file, &sub).to_text(),
        "{\"arms\":[{\"strategy\":\"whole_file\",\"text\":\"# edit the bucket `t` in this file\\n\\nS\\n\",\"tokens\":9},\
         {\"error\":\"cannot build a subgraph for t; try --strategy whole_file\",\"strategy\":\"subgraph\"}],\"bucket\":\"t\"}"
    );
    let sub = build(Strategy::Subgraph, "S", "t", 9, Some(Measured { text: "p".into(), tokens: 2 }));
    assert!(payload::context("t", &file, &sub).to_text().contains("{\"strategy\":\"subgraph\",\"text\":\"p\",\"tokens\":2}"));
}

#[test]
fn test_runs_are_counted() {
    let t = |id: &str, error: Option<&str>| TestOutcome {
        id: id.into(),
        subject: None,
        desc: "d".into(),
        expect_error: false,
        error: error.map(String::from),
    };
    assert_eq!(
        payload::tests(&vec![t("a", None), t("b", Some("e"))]).to_text(),
        "{\"passed\":1,\"results\":[{\"desc\":\"d\",\"error\":null,\"id\":\"a\",\"passed\":true,\"subject\":null},\
         {\"desc\":\"d\",\"error\":\"e\",\"id\":\"b\",\"passed\":false,\"subject\":null}],\"total\":2}"
    );
}

#[test]
fn sweeps_and_costs_carry_their_ratios() {
    let rows = sweep(&[1], &[Costs { file_tokens: 8, subgraph_tokens: 4 }], 2);
    assert_eq!(
        payload::sweep_rows(&rows, &vec![(json("2.0"), json("1.5"))]).to_text(),
        "{\"rows\":[{\"agent_overhead\":2,\"buckets\":3,\"context_ratio\":2.0,\"effective_ratio\":1.5,\"fanout\":1,\
         \"file_tokens\":8,\"subgraph_tokens\":4}]}"
    );
    let subs = vec![(4, json("2.5")), (0, json("10.0")), (9, json("0.0"))];
    assert_eq!(
        payload::subgraph_costs(&program(), &subs, 10).to_text(),
        "{\"rows\":[{\"file\":10,\"label\":\"one\",\"ratio\":2.5,\"subgraph\":4},\
         {\"file\":10,\"label\":\"#b2\",\"ratio\":10.0,\"subgraph\":0}]}"
    );
    assert_eq!(payload::status(true, "m").to_text(), "{\"has_key\":true,\"model\":\"m\"}");
}

#[test]
fn runs_are_reported_whole() {
    let r = run(Guard::new(Budget::default(), "m"), "t", &None, 1, 6).finish(Workspace::new("s".into()));
    assert_eq!(
        payload::agent_run(&r, json("0.25")).to_text(),
        "{\"edited\":false,\"ok\":true,\"source\":null,\"spend\":{\"cache_read_tokens\":0,\"cache_write_tokens\":0,\
         \"input_tokens\":0,\"output_tokens\":0,\"requests\":0,\"usd\":0.25},\"summary\":\"\",\"tool_calls\":[],\"turns\":0,\
         \"whole_file_tokens\":6}"
    );
    let b = run_baseline("a".into(), "b", Ok(vec![]), Spend::default());
    assert_eq!(
        payload::baseline_run(&b, json("0.0")).to_text(),
        "{\"changed_lines\":1,\"compiles\":true,\"edited\":true,\"error\":null,\"ok\":true,\"source\":\"a\",\"spend\":\
         {\"cache_read_tokens\":0,\"cache_write_tokens\":0,\"input_tokens\":0,\"output_tokens\":0,\"requests\":0,\"usd\":0.0},\
         \"tests_pass\":true}"
    );
}

#[test]
fn an_edit_needs_a_goal() {
    let ask = |s: &str| payload::edit_request(s);
    assert!(ask("{").is_err());
    assert_eq!(ask("{\"goal\":\" \"}").err().unwrap(), "say what you want changed");
    let q = ask("{\"goal\":\" g \"}").ok().unwrap();
    assert_eq!((q.goal.as_str(), q.max_requests, q.write), (" g ", 6, false));
    assert!(q.max_usd.is_none());
    let q = ask("{\"goal\":\"g\",\"max_usd\":0.5,\"max_requests\":4294967298,\"write\":true}").ok().unwrap();
    assert_eq!((q.max_requests, q.write), (2, true));
    assert_eq!(q.max_usd.unwrap().to_text(), "0.5");
    let b = payload::edit_budget(6, None);
    assert_eq!((b.max_requests, b.max_input_tokens, b.max_output_tokens, b.max_usd), (6, 200_000, 32_000, DOLLAR / 4));
    assert_eq!(payload::edit_budget(6, Some(7)).max_usd, 7);
    assert_eq!(
        payload::key_message("no key"),
        "no key — export it in the shell you launched this from, then restart"
    );
}

#[test]
fn an_experiment_names_its_arms() {
    let ask = |s: &str| payload::experiment_request(s, DEFAULT_MODEL);
    assert!(ask("[").is_err());
    assert_eq!(ask("{}").err().unwrap(), "say what you want changed");
    let q = ask("{\"goal\":\" g \"}").ok().unwrap();
    assert_eq!((q.goal.as_str(), q.model.as_str(), q.buckets, q.whole_file, q.write), ("g", "opus-5", true, true, false));
    let q = ask("{\"goal\":\"g\",\"arms\":\"file\",\"model\":\"m\",\"max_usd\":1}").ok().unwrap();
    assert_eq!((q.model.as_str(), q.buckets, q.whole_file), ("m", false, true));
    let q = ask("{\"goal\":\"g\",\"arms\":\"neither\"}").ok().unwrap();
    assert_eq!((q.buckets, q.whole_file), (false, false));
    assert_eq!(payload::experiment_budget(None).max_usd, 30_000_000);
    assert_eq!(payload::experiment_budget(Some(1)).max_requests, 8);
    let r = payload::experiment(5, &q, "f", 9, &Some(json("{\"x\":1}")), &None);
    assert_eq!(
        r.to_text(),
        "{\"at\":5,\"buckets\":{\"x\":1},\"file\":\"f\",\"file_tokens\":9,\"goal\":\"g\",\"model\":\"opus-5\"}"
    );
}

#[test]
fn the_routes_have_their_rules() {
    assert_eq!(payload::sweep_sizes(), [2, 5, 10, 20, 40, 80, 160, 320]);
    assert_eq!(payload::fanouts(), [0, 1, 2, 4, 6]);
    assert_eq!(payload::ui_approval(), ApprovalMode::Never);
    assert_eq!(
        (payload::FIND_LIMIT, payload::MAX_TURNS, payload::DEPTH, payload::FANOUT_HELPERS),
        (8, 12, 1, 82)
    );
}

#[test]
fn recorded_runs_come_newest_first() {
    let v = payload::runs("{\"n\":1}\nnot json\n{\"n\":2}\n", "f.runs.jsonl");
    assert_eq!(v.to_text(), "{\"log\":\"f.runs.jsonl\",\"runs\":[{\"n\":2},{\"n\":1}]}");
    let parsed = vec![Ok(json("1")), Err("no".to_string()), Ok(json("2"))];
    assert_eq!(payload::list_runs(&parsed, "l").to_text(), "{\"log\":\"l\",\"runs\":[2,1]}");
    assert_eq!(payload::runs("", "l").to_text(), "{\"log\":\"l\",\"runs\":[]}");
}

#[test]
fn an_upload_is_kept_under_a_bare_name() {
    for (name, kept) in [
        ("a.bkt", "a.bkt"),
        ("../../etc/passwd", "passwd.bkt"),
        ("/tmp/x.bucket", "x.bucket"),
        ("..", "uploaded.bkt"),
        ("", "uploaded.bkt"),
        ("dir/", "dir.bkt"),
    ] {
        assert_eq!(payload::keep_name(name), kept, "{name}");
    }
    for (current, name, place) in [
        ("/home/u/app.bkt", "app.bkt", "/home/u/.bucketcode/app.bkt"),
        ("/home/u/app.bkt", "../app.bkt", "/home/u/.bucketcode/app.bkt"),
        ("app.bkt", "x", ".bucketcode/x.bkt"),
        ("/home/u/.bucketcode/app.bkt", "app.bkt", "/home/u/.bucketcode/.bucketcode/app.bkt"),
    ] {
        assert_eq!(payload::upload_path(current, name), place);
    }
    let open = |s: &str| payload::open_request(s);
    assert!(open("nope").is_err());
    assert_eq!(open("{\"source\":\" \\n\"}").err().unwrap(), "that file is empty");
    assert_eq!(open("{\"source\":\"s\"}").ok().unwrap(), ("uploaded.bkt".to_string(), "s".to_string()));
    assert_eq!(
        payload::opened("f", &program(), 4).to_text(),
        "{\"buckets\":2,\"file\":\"f\",\"tests\":4}"
    );
    assert_eq!(payload::not_saved("e"), "could not save: e");
    assert_eq!(payload::not_loaded("e"), "that file does not compile, so it was not loaded:\n\ne");
}
