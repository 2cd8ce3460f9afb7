use bucketcode::index::{render_shortlist, score_words, search, stem, tokenize, without_stop_words};
use bucketcode::program::{Bucket, Param, Program};

fn bucket(address: &str, label: Option<&str>, desc: &str, params: &[(&str, &str)]) -> Bucket {
    Bucket {
        address: address.into(),
        user: true,
        label: label.map(String::from),
        desc: desc.into(),
        params: params
            .iter()
            .map(|(n, t)| Param { name: n.to_string(), ty: t.to_string() })
            .collect(),
        ret: "Num".into(),
        body: None,
    }
}

fn program(buckets: Vec<Bucket>) -> Program {
    Program { buckets, graph: Vec::new(), hashes: Vec::new() }
}

fn shop() -> Program {
    program(vec![
        bucket("#b1", Some("cents"), "round a price down to whole cents", &[("price", "Num")]),
        bucket("#b2", Some("double"), "multiply by two", &[("x", "Num")]),
        bucket("#b3", Some("rounding_mode"), "how to treat halves", &[]),
        bucket("#b4", None, "prices of everything", &[("round", "Num"), ("y", "Str")]),
    ])
}

#[test]
fn words_are_lower_case_without_stop_words() {
    assert_eq!(tokenize("Please make THE Prices round-down, 2x!"), ["prices", "round", "down", "2x"]);
    assert!(tokenize("to the of").is_empty());
    assert_eq!(tokenize("ÉTÉ été"), ["été", "été"]);
}

#[test]
fn words_are_scored_by_their_stems() {
    let v = |w: &[&str]| -> Vec<String> { w.iter().map(|s| s.to_string()).collect() };
    assert_eq!(without_stop_words(&v(&["fix", "the", "tax", "The"])), ["tax", "The"]);
    let mut hits = v(&["first"]);
    let score = score_words(&v(&["rounding", "pri", "zebra"]), &v(&["round", "price"]), 7, &mut hits);
    assert_eq!(score, 70 + 28);
    assert_eq!(hits, ["first", "rounding", "pri"]);
}

#[test]
fn common_suffixes_fold() {
    for w in ["rounding", "rounds", "rounded", "round"] {
        assert_eq!(stem(w), "round");
    }
    assert_eq!(stem("boxes"), "box");
    assert_eq!(stem("ring"), "ring", "too short to cut");
    assert_eq!(stem("bus"), "bus");
    assert_eq!(stem("uses"), "use", "es is too long to cut, s is not");
    assert_eq!(stem("ééing"), "éé", "length is counted in bytes");
}

#[test]
fn descriptions_outrank_labels_and_parameters() {
    let found = search(&shop(), "rounding", 10);
    let addresses: Vec<&str> = found.iter().map(|m| m.address.as_str()).collect();
    assert_eq!(addresses, ["#b1", "#b3", "#b4"]);
    let scores: Vec<u128> = found.iter().map(|m| m.score).collect();
    assert_eq!(scores, [100, 70, 30]);
    assert_eq!(found[0].contract, "(price: Num) -> Num");
    assert_eq!(found[0].words, 1);
    assert_eq!(found[2].label, None);
}

#[test]
fn a_prefix_overlap_earns_partial_credit() {
    let found = search(&shop(), "multiplication", 10);
    assert!(found.is_empty(), "multiplication and multiply share no whole prefix");
    let found = search(&shop(), "mult", 10);
    assert_eq!(found.len(), 1);
    assert_eq!(found[0].score, 40);
}

#[test]
fn matched_words_are_listed_once_in_order() {
    let found = search(&shop(), "round price cents round", 10);
    assert_eq!(found[0].address, "#b1");
    assert_eq!(found[0].matched, ["cents", "price", "round"]);
    // Four query words hit the description, one the label, one a parameter.
    assert_eq!(found[0].score, 400 + 70 + 30);
    assert_eq!(found[0].words, 4);
}

#[test]
fn the_limit_keeps_the_best() {
    let found = search(&shop(), "rounding", 1);
    assert_eq!(found.len(), 1);
    assert_eq!(found[0].address, "#b1");
    assert_eq!(search(&shop(), "rounding", 3).len(), 3, "all hits fit");
    assert!(search(&shop(), "rounding", 0).is_empty());
}

#[test]
fn equal_scores_are_ordered_by_address() {
    let p = program(vec![
        bucket("#b9", None, "tax rate", &[]),
        bucket("#b1", None, "tax amount", &[]),
        bucket("#b5", None, "tax base", &[]),
    ]);
    let found = search(&p, "tax", 10);
    let addresses: Vec<&str> = found.iter().map(|m| m.address.as_str()).collect();
    assert_eq!(addresses, ["#b1", "#b5", "#b9"]);
}

#[test]
fn only_user_buckets_are_findable() {
    let mut p = shop();
    p.buckets[0].user = false;
    let found = search(&p, "cents", 10);
    assert!(found.is_empty());
    assert!(search(&shop(), "the", 10).is_empty(), "a query of stop words names nothing");
}

#[test]
fn the_shortlist_shows_no_bodies() {
    let found = search(&shop(), "double", 10);
    assert_eq!(
        render_shortlist(&found),
        "# candidate buckets\n#b2  double(x: Num) -> Num  \"multiply by two\"\n"
    );
    assert_eq!(render_shortlist(&[]), "no buckets matched that request\n");
    let found = search(&shop(), "everything", 10);
    assert_eq!(
        render_shortlist(&found),
        "# candidate buckets\n#b4  (round: Num, y: Str) -> Num  \"prices of everything\"\n"
    );
}
