//! The gates that a change has to pass.
//!
//! A change is accepted when the program compiles, when exactly the buckets
//! that were meant to change did, and when the tests pass. The compiler and the
//! evaluator are the language's; what they report is judged here.

use crate::program::TestOutcome;
use crate::text;
use vstd::prelude::*;

verus! {

/// What a candidate source compiled to.
#[derive(Debug)]
pub struct Recompiled {
    /// The address and content hash of every user bucket.
    pub hashes: Vec<(String, String)>,
    /// Every test, evaluated, in the order of the program.
    pub tests: Vec<TestOutcome>,
}

/// The addresses and hashes that a list holds.
pub open spec fn pairs(v: Seq<(String, String)>) -> Seq<(Seq<char>, Seq<char>)> {
    v.map_values(|p: (String, String)| (p.0@, p.1@))
}

/// The hash of the bucket with that address.
pub open spec fn hash_of(m: Seq<(Seq<char>, Seq<char>)>, address: Seq<char>) -> Option<Seq<char>>
    decreases m.len(),
{
    if m.len() == 0 {
        None
    } else if m.last().0 == address {
        Some(m.last().1)
    } else {
        hash_of(m.drop_last(), address)
    }
}

fn find_hash<'a>(m: &'a Vec<(String, String)>, address: &str) -> (r: Option<&'a String>)
    ensures
        match r {
            Some(h) => hash_of(pairs(m@), address@) == Some(h@),
            None => hash_of(pairs(m@), address@) is None,
        },
{
    let ghost all = pairs(m@);
    let mut n: usize = m.len();
    assert(all.take(n as int) =~= all);
    while n > 0
        invariant
            n <= m@.len(),
            all == pairs(m@),
            hash_of(all, address@) == hash_of(all.take(n as int), address@),
        decreases n,
    {
        assert(all.take(n as int).last() == (m@[n - 1].0@, m@[n - 1].1@));
        assert(all.take(n as int).drop_last() =~= all.take(n - 1));
        if text::same(&m[n - 1].0, address) {
            return Some(&m[n - 1].1);
        }
        n = n - 1;
    }
    None
}

// ------------------------------------------------------------------ movement

/// A bucket that is here and was not there.
pub open spec fn is_new(before: Seq<(Seq<char>, Seq<char>)>) -> spec_fn(
    (Seq<char>, Seq<char>),
) -> bool {
    |p: (Seq<char>, Seq<char>)| hash_of(before, p.0) is None
}

/// The buckets of `after` that are not in `before`.
pub open spec fn appeared(
    before: Seq<(Seq<char>, Seq<char>)>,
    after: Seq<(Seq<char>, Seq<char>)>,
) -> Seq<(Seq<char>, Seq<char>)> {
    after.filter(is_new(before))
}

/// A bucket that is in both and differs, though it was not meant to.
pub open spec fn is_collateral(
    after: Seq<(Seq<char>, Seq<char>)>,
    meant: Seq<Seq<char>>,
) -> spec_fn((Seq<char>, Seq<char>)) -> bool {
    |p: (Seq<char>, Seq<char>)|
        hash_of(after, p.0) is Some && hash_of(after, p.0) != Some(p.1) && !meant.contains(p.0)
}

/// The buckets in both that differ, though they were not meant to.
pub open spec fn collateral(
    before: Seq<(Seq<char>, Seq<char>)>,
    after: Seq<(Seq<char>, Seq<char>)>,
    meant: Seq<Seq<char>>,
) -> Seq<(Seq<char>, Seq<char>)> {
    before.filter(is_collateral(after, meant))
}

/// A bucket that is not the same any more, or gone.
pub open spec fn is_disturbed(after: Seq<(Seq<char>, Seq<char>)>) -> spec_fn(
    (Seq<char>, Seq<char>),
) -> bool {
    |p: (Seq<char>, Seq<char>)| hash_of(after, p.0) != Some(p.1)
}

/// The buckets of `before` that are not the same any more, or gone.
pub open spec fn disturbed(
    before: Seq<(Seq<char>, Seq<char>)>,
    after: Seq<(Seq<char>, Seq<char>)>,
) -> Seq<(Seq<char>, Seq<char>)> {
    before.filter(is_disturbed(after))
}

/// The addresses in a list of buckets.
pub open spec fn addresses(m: Seq<(Seq<char>, Seq<char>)>) -> Seq<Seq<char>> {
    m.map_values(|p: (Seq<char>, Seq<char>)| p.0)
}

proof fn lemma_addresses_push(m: Seq<(Seq<char>, Seq<char>)>, p: (Seq<char>, Seq<char>))
    ensures
        addresses(m.push(p)) == addresses(m).push(p.0),
{
    assert(addresses(m.push(p)) =~= addresses(m).push(p.0));
}

fn list_new(before: &Vec<(String, String)>, after: &Vec<(String, String)>) -> (r: Vec<String>)
    ensures
        text::texts(r@) == addresses(appeared(pairs(before@), pairs(after@))),
        r@.len() == appeared(pairs(before@), pairs(after@)).len(),
{
    let ghost all = pairs(after@);
    let ghost keep = is_new(pairs(before@));
    let mut out: Vec<String> = Vec::new();
    let mut i: usize = 0;
    proof {
        reveal(Seq::filter);
        assert(addresses(all.take(0).filter(keep)) =~= text::texts(out@));
    }
    while i < after.len()
        invariant
            i <= after@.len(),
            all == pairs(after@),
            keep == is_new(pairs(before@)),
            text::texts(out@) == addresses(all.take(i as int).filter(keep)),
        decreases after@.len() - i,
    {
        proof {
            text::lemma_filter_step(all, keep, i as int);
            lemma_addresses_push(all.take(i as int).filter(keep), all[i as int]);
        }
        if find_hash(before, &after[i].0).is_none() {
            let ghost old_out = text::texts(out@);
            out.push(after[i].0.clone());
            assert(text::texts(out@) =~= old_out.push(all[i as int].0));
        }
        i = i + 1;
    }
    assert(all.take(after@.len() as int) =~= all);
    assert(text::texts(out@).len() == out@.len());
    out
}

fn count_collateral(
    before: &Vec<(String, String)>,
    after: &Vec<(String, String)>,
    meant: &Vec<String>,
) -> (r: usize)
    ensures
        r == collateral(pairs(before@), pairs(after@), text::texts(meant@)).len(),
{
    let ghost all = pairs(before@);
    let ghost keep = is_collateral(pairs(after@), text::texts(meant@));
    let mut n: usize = 0;
    let mut i: usize = 0;
    proof {
        reveal(Seq::filter);
        assert(all.take(0).filter(keep).len() == 0);
    }
    while i < before.len()
        invariant
            n <= i <= before@.len(),
            all == pairs(before@),
            keep == is_collateral(pairs(after@), text::texts(meant@)),
            n == all.take(i as int).filter(keep).len(),
        decreases before@.len() - i,
    {
        proof {
            text::lemma_filter_step(all, keep, i as int);
        }
        match find_hash(after, &before[i].0) {
            Some(h) => {
                if !text::same(h, &before[i].1) && !text::has_text(meant, &before[i].0) {
                    n = n + 1;
                }
            },
            None => {},
        }
        i = i + 1;
    }
    assert(all.take(before@.len() as int) =~= all);
    n
}

fn count_disturbed(before: &Vec<(String, String)>, after: &Vec<(String, String)>) -> (r: usize)
    ensures
        r == disturbed(pairs(before@), pairs(after@)).len(),
{
    let ghost all = pairs(before@);
    let ghost keep = is_disturbed(pairs(after@));
    let mut n: usize = 0;
    let mut i: usize = 0;
    proof {
        reveal(Seq::filter);
        assert(all.take(0).filter(keep).len() == 0);
    }
    while i < before.len()
        invariant
            n <= i <= before@.len(),
            all == pairs(before@),
            keep == is_disturbed(pairs(after@)),
            n == all.take(i as int).filter(keep).len(),
        decreases before@.len() - i,
    {
        proof {
            text::lemma_filter_step(all, keep, i as int);
        }
        match find_hash(after, &before[i].0) {
            Some(h) => {
                if !text::same(h, &before[i].1) {
                    n = n + 1;
                }
            },
            None => {
                n = n + 1;
            },
        }
        i = i + 1;
    }
    assert(all.take(before@.len() as int) =~= all);
    n
}

// --------------------------------------------------------------------- tests

/// The first test that does not pass.
pub open spec fn first_failure(tests: Seq<TestOutcome>) -> Option<TestOutcome>
    decreases tests.len(),
{
    if tests.len() == 0 {
        None
    } else if !tests[0].passes() {
        Some(tests[0])
    } else {
        first_failure(tests.skip(1))
    }
}

pub(crate) fn find_failure(tests: &Vec<TestOutcome>) -> (r: Option<&TestOutcome>)
    ensures
        match r {
            Some(t) => first_failure(tests@) == Some(*t),
            None => first_failure(tests@) is None,
        },
{
    let mut i: usize = 0;
    assert(tests@.skip(0) =~= tests@);
    while i < tests.len()
        invariant
            i <= tests@.len(),
            first_failure(tests@) == first_failure(tests@.skip(i as int)),
        decreases tests@.len() - i,
    {
        if !tests[i].passed() {
            return Some(&tests[i]);
        }
        assert(tests@.skip(i as int).skip(1) =~= tests@.skip(i + 1));
        i = i + 1;
    }
    None
}

/// How many of the tests pass.
pub open spec fn passing(tests: Seq<TestOutcome>) -> nat
    decreases tests.len(),
{
    if tests.len() == 0 {
        0
    } else {
        passing(tests.drop_last()) + if tests.last().passes() {
            1nat
        } else {
            0nat
        }
    }
}

/// A failing test as it is reported: what it is about, and why.
pub open spec fn failure_line(t: TestOutcome) -> Seq<char> {
    "\n"@ + (t.about() + ": "@ + text::or_else(
        text::opt_text(t.error),
        "expected an error, got a value"@,
    )) + "\n"@
}

/// The failing tests as they are reported.
pub open spec fn failure_lines(tests: Seq<TestOutcome>) -> Seq<char>
    decreases tests.len(),
{
    if tests.len() == 0 {
        Seq::empty()
    } else if tests.last().passes() {
        failure_lines(tests.drop_last())
    } else {
        failure_lines(tests.drop_last()) + failure_line(tests.last())
    }
}

/// The report on all tests.
pub open spec fn test_report(tests: Seq<TestOutcome>) -> Seq<char> {
    text::decimal(passing(tests)) + "/"@ + text::decimal(tests.len()) + " tests passed\n"@
        + failure_lines(tests)
}

/// Report on every test that was run. The flag says that not all of them
/// passed.
pub fn report_tests(tests: &Vec<TestOutcome>) -> (r: (String, bool))
    ensures
        r.0@ == test_report(tests@),
        r.1 == (passing(tests@) != tests@.len()),
        r.1 == (first_failure(tests@) is Some),
{
    let ghost all = tests@;
    let mut passed: usize = 0;
    let mut failures = String::new();
    let mut i: usize = 0;
    assert(all.take(0) =~= Seq::<TestOutcome>::empty());
    while i < tests.len()
        invariant
            i <= tests@.len(),
            all == tests@,
            passed <= i,
            passed == passing(all.take(i as int)),
            failures@ == failure_lines(all.take(i as int)),
        decreases tests@.len() - i,
    {
        assert(all.take(i + 1).drop_last() =~= all.take(i as int));
        if tests[i].passed() {
            passed = passed + 1;
        } else {
            let mut line = "\n".to_owned();
            let mut what = tests[i].subject_or_id();
            what.append(": ");
            what.append(&text::text_or(&tests[i].error, "expected an error, got a value"));
            line.append(&what);
            line.append("\n");
            failures.append(&line);
        }
        i = i + 1;
    }
    assert(all.take(tests@.len() as int) =~= all);
    let mut s = text::decimal_of(passed as u64);
    s.append("/");
    s.append(&text::decimal_of(tests.len() as u64));
    s.append(" tests passed\n");
    s.append(&failures);
    proof {
        lemma_all_pass(tests@);
    }
    (s, passed != tests.len())
}

proof fn lemma_all_pass(tests: Seq<TestOutcome>)
    ensures
        passing(tests) <= tests.len(),
        passing(tests) == tests.len() <==> first_failure(tests) is None,
        first_failure(tests) is None <==> forall|i: int|
            0 <= i < tests.len() ==> (#[trigger] tests[i]).passes(),
    decreases tests.len(),
{
    if tests.len() > 0 {
        let head = tests.drop_last();
        lemma_all_pass(head);
        lemma_first_failure(tests);
        if passing(tests) == tests.len() {
            assert forall|i: int| 0 <= i < tests.len() implies (#[trigger] tests[i]).passes() by {
                if i < tests.len() - 1 {
                    assert(head[i].passes());
                }
            }
        }
        if forall|i: int| 0 <= i < tests.len() ==> (#[trigger] tests[i]).passes() {
            assert forall|i: int| 0 <= i < head.len() implies (#[trigger] head[i]).passes() by {
                assert(tests[i].passes());
            }
            assert(tests[tests.len() - 1].passes());
        }
    }
}

proof fn lemma_first_failure(tests: Seq<TestOutcome>)
    ensures
        first_failure(tests) is None <==> forall|i: int|
            0 <= i < tests.len() ==> (#[trigger] tests[i]).passes(),
    decreases tests.len(),
{
    if tests.len() > 0 {
        let rest = tests.skip(1);
        lemma_first_failure(rest);
        if tests[0].passes() {
            if first_failure(rest) is None {
                assert forall|i: int| 0 <= i < tests.len() implies (
                #[trigger] tests[i]).passes() by {
                    if i > 0 {
                        assert(rest[i - 1].passes());
                    }
                }
            } else {
                let i = choose|i: int| 0 <= i < rest.len() && !(#[trigger] rest[i]).passes();
                assert(!tests[i + 1].passes());
            }
        }
    }
}

// ------------------------------------------------------------------ verdicts

/// What is said when a change moved more than it was meant to.
pub open spec fn unclean_message(
    appeared: nat,
    appear: nat,
    vanished: nat,
    vanish: nat,
    others: nat,
) -> Seq<char> {
    "that was not a clean change: "@ + text::decimal(appeared)
        + " bucket(s) appeared (expected "@ + text::decimal(appear) + "), "@ + text::decimal(
        vanished,
    ) + " vanished (expected "@ + text::decimal(vanish) + "), and "@ + text::decimal(others)
        + " other bucket(s) changed. Write only what was asked and do not close a brace you did not open."@
}

/// What is said when a change broke a test. It says what to do about it: a bare
/// "a test broke" leaves the model guessing.
pub open spec fn broken_message(t: TestOutcome) -> Seq<char> {
    "that change broke the test on "@ + t.about() + ": `"@ + t.desc@
        + "`.\n\nIf the behaviour was *meant* to change, make the body change and the test change together: pass a `tests` array to patch_bucket in the same call. Doing it in two steps cannot work -- new tests fail against the old body, and the old test fails against the new body. If the behaviour was not meant to change, fix the body instead."@
}

/// Exactly as many buckets came and went as were meant to, and no other
/// changed.
pub open spec fn is_clean(
    before: Seq<(Seq<char>, Seq<char>)>,
    after: Seq<(Seq<char>, Seq<char>)>,
    appear: nat,
    vanish: nat,
    meant: Seq<Seq<char>>,
) -> bool {
    &&& appeared(before, after).len() == appear
    &&& appeared(after, before).len() == vanish
    &&& collateral(before, after, meant).len() == 0
}

/// Whether a change is accepted, with the number of tests that pass, and why
/// not.
pub open spec fn change_verdict(
    before: Seq<(Seq<char>, Seq<char>)>,
    compiled: Result<Recompiled, String>,
    appear: nat,
    vanish: nat,
    meant: Seq<Seq<char>>,
) -> Result<nat, Seq<char>> {
    match compiled {
        Err(e) => Err(e@),
        Ok(c) => {
            let after = pairs(c.hashes@);
            if !is_clean(before, after, appear, vanish, meant) {
                Err(
                    unclean_message(
                        appeared(before, after).len(),
                        appear,
                        appeared(after, before).len(),
                        vanish,
                        collateral(before, after, meant).len(),
                    ),
                )
            } else {
                match first_failure(c.tests@) {
                    Some(t) => Err(broken_message(t)),
                    None => Ok(c.tests@.len()),
                }
            }
        },
    }
}

/// A verdict that counts, as contracts speak of it.
pub open spec fn counted(r: Result<usize, String>) -> Result<nat, Seq<char>> {
    match r {
        Ok(n) => Ok(n as nat),
        Err(e) => Err(e@),
    }
}

/// Check what a candidate source changed against `before`.
///
/// `appear` / `vanish` / `meant` describe the change the caller intends; any
/// other movement is collateral and rejects. Every test must still pass: a
/// structural change can break a distant one.
pub fn check_change(
    before: &Vec<(String, String)>,
    compiled: &Result<Recompiled, String>,
    appear: usize,
    vanish: usize,
    meant: &Vec<String>,
) -> (r: Result<usize, String>)
    ensures
        counted(r) == change_verdict(
            pairs(before@),
            *compiled,
            appear as nat,
            vanish as nat,
            text::texts(meant@),
        ),
{
    let c = match compiled {
        Ok(c) => c,
        Err(e) => {
            return Err(e.clone());
        },
    };
    let came: usize = list_new(before, &c.hashes).len();
    let went: usize = list_new(&c.hashes, before).len();
    let others: usize = count_collateral(before, &c.hashes, meant);
    if came != appear || went != vanish || others != 0 {
        let mut s = "that was not a clean change: ".to_owned();
        s.append(&text::decimal_of(came as u64));
        s.append(" bucket(s) appeared (expected ");
        s.append(&text::decimal_of(appear as u64));
        s.append("), ");
        s.append(&text::decimal_of(went as u64));
        s.append(" vanished (expected ");
        s.append(&text::decimal_of(vanish as u64));
        s.append("), and ");
        s.append(&text::decimal_of(others as u64));
        s.append(
            " other bucket(s) changed. Write only what was asked and do not close a brace you did not open.",
        );
        return Err(s);
    }
    match find_failure(&c.tests) {
        Some(t) => {
            let mut s = "that change broke the test on ".to_owned();
            s.append(&t.subject_or_id());
            s.append(": `");
            s.append(&t.desc);
            s.append(
                "`.\n\nIf the behaviour was *meant* to change, make the body change and the test change together: pass a `tests` array to patch_bucket in the same call. Doing it in two steps cannot work -- new tests fail against the old body, and the old test fails against the new body. If the behaviour was not meant to change, fix the body instead.",
            );
            Err(s)
        },
        None => Ok(c.tests.len()),
    }
}

/// Whether a new bucket is accepted, with its address and the number of tests
/// that pass, and why not. Exactly one bucket may appear, and nothing else may
/// change.
pub open spec fn add_verdict(
    before: Seq<(Seq<char>, Seq<char>)>,
    compiled: Result<Recompiled, String>,
    label: Seq<char>,
) -> Result<(Seq<char>, nat), Seq<char>> {
    match compiled {
        Err(e) => Err(e@),
        Ok(c) => {
            let after = pairs(c.hashes@);
            let new = appeared(before, after);
            if new.len() != 1 || disturbed(before, after).len() != 0 {
                Err(
                    "adding "@ + label + " was not clean: "@ + text::decimal(new.len())
                        + " bucket(s) appeared and "@ + text::decimal(
                        disturbed(before, after).len(),
                    )
                        + " existing bucket(s) changed. Write only the body expression and do not close a brace you did not open."@,
                )
            } else {
                match first_failure(c.tests@) {
                    Some(t) => Err(
                        "adding "@ + label + " broke an existing test ("@ + t.about() + "）"@,
                    ),
                    None => Ok((new[0].0, c.tests@.len())),
                }
            }
        },
    }
}

/// Check what adding a bucket changed against `before`.
pub fn check_addition(
    before: &Vec<(String, String)>,
    compiled: &Result<Recompiled, String>,
    label: &str,
) -> (r: Result<(String, usize), String>)
    ensures
        match r {
            Ok((address, n)) => add_verdict(pairs(before@), *compiled, label@) == Ok::<
                (Seq<char>, nat),
                Seq<char>,
            >((address@, n as nat)),
            Err(e) => add_verdict(pairs(before@), *compiled, label@) == Err::<
                (Seq<char>, nat),
                Seq<char>,
            >(e@),
        },
{
    let c = match compiled {
        Ok(c) => c,
        Err(e) => {
            return Err(e.clone());
        },
    };
    let new = list_new(before, &c.hashes);
    let gone: usize = count_disturbed(before, &c.hashes);
    if new.len() != 1 || gone != 0 {
        let mut s = "adding ".to_owned();
        s.append(label);
        s.append(" was not clean: ");
        s.append(&text::decimal_of(new.len() as u64));
        s.append(" bucket(s) appeared and ");
        s.append(&text::decimal_of(gone as u64));
        s.append(
            " existing bucket(s) changed. Write only the body expression and do not close a brace you did not open.",
        );
        return Err(s);
    }
    match find_failure(&c.tests) {
        Some(t) => {
            let mut s = "adding ".to_owned();
            s.append(label);
            s.append(" broke an existing test (");
            s.append(&t.subject_or_id());
            s.append("）");
            Err(s)
        },
        None => {
            assert(text::texts(new@)[0] == new@[0]@);
            Ok((new[0].clone(), c.tests.len()))
        },
    }
}

/// Whether the edit of one body is accepted, and what is said of it: it has to
/// compile, it has to change exactly its bucket, and the bucket's own tests have
/// to pass, in that order.
pub open spec fn edit_verdict(
    compiled: Result<(), String>,
    atomic: Result<(), String>,
    tests: Result<(usize, usize), String>,
) -> Result<Seq<char>, Seq<char>> {
    match compiled {
        Err(e) => Err(e@),
        Ok(_) => match atomic {
            Err(e) => Err(
                e@ + "\n\nhint: write only the expression; do not close the bucket's brace"@,
            ),
            Ok(_) => match tests {
                Err(e) => Err(e@),
                Ok((run, passed)) => Ok(
                    "accepted. "@ + text::decimal(passed as nat) + "/"@ + text::decimal(
                        run as nat,
                    ) + " related test(s) pass."@,
                ),
            },
        },
    }
}

/// Check the edit of one body. A verdict after one that failed is not looked
/// at.
pub fn check_edit(
    compiled: Result<(), String>,
    atomic: Result<(), String>,
    tests: Result<(usize, usize), String>,
) -> (r: Result<String, String>)
    ensures
        text::answer(r) == edit_verdict(compiled, atomic, tests),
{
    match compiled {
        Err(e) => {
            return Err(e);
        },
        Ok(_) => {},
    }
    match atomic {
        Err(e) => {
            let mut s = e;
            s.append("\n\nhint: write only the expression; do not close the bucket's brace");
            return Err(s);
        },
        Ok(_) => {},
    }
    match tests {
        Err(e) => Err(e),
        Ok((run, passed)) => {
            let mut s = "accepted. ".to_owned();
            s.append(&text::decimal_of(passed as u64));
            s.append("/");
            s.append(&text::decimal_of(run as u64));
            s.append(" related test(s) pass.");
            Ok(s)
        },
    }
}

// ---------------------------------------------------------------------- laws

proof fn lemma_filter_empty<A>(s: Seq<A>, keep: spec_fn(A) -> bool, i: int)
    requires
        s.filter(keep).len() == 0,
        0 <= i < s.len(),
    ensures
        !keep(s[i]),
    decreases s.len(),
{
    reveal(Seq::filter);
    if i < s.len() - 1 {
        lemma_filter_empty(s.drop_last(), keep, i);
    }
}

/// A change that is accepted compiles, passes every test, and left every bucket
/// as it was that is still there and was not meant to change.
pub proof fn law_accepted_change_is_clean(
    before: Seq<(Seq<char>, Seq<char>)>,
    compiled: Result<Recompiled, String>,
    appear: nat,
    vanish: nat,
    meant: Seq<Seq<char>>,
)
    requires
        change_verdict(before, compiled, appear, vanish, meant) is Ok,
    ensures
        compiled is Ok,
        ({
            let c = compiled->Ok_0;
            let after = pairs(c.hashes@);
            &&& forall|i: int| 0 <= i < c.tests@.len() ==> (#[trigger] c.tests@[i]).passes()
            &&& forall|i: int|
                0 <= i < before.len() && !meant.contains((#[trigger] before[i]).0) ==> hash_of(
                    after,
                    before[i].0,
                ) is None || hash_of(after, before[i].0) == Some(before[i].1)
            &&& vanish == 0 ==> forall|i: int|
                0 <= i < before.len() ==> hash_of(after, (#[trigger] before[i]).0) is Some
            &&& appear == 0 ==> forall|i: int|
                0 <= i < after.len() ==> hash_of(before, (#[trigger] after[i]).0) is Some
        }),
{
    let c = compiled->Ok_0;
    let after = pairs(c.hashes@);
    lemma_first_failure(c.tests@);
    assert forall|i: int|
        0 <= i < before.len() && !meant.contains((#[trigger] before[i]).0) implies hash_of(
        after,
        before[i].0,
    ) is None || hash_of(after, before[i].0) == Some(before[i].1) by {
        lemma_filter_empty(before, is_collateral(after, meant), i);
    }
    if vanish == 0 {
        assert forall|i: int| 0 <= i < before.len() implies hash_of(
            after,
            (#[trigger] before[i]).0,
        ) is Some by {
            lemma_filter_empty(before, is_new(after), i);
        }
    }
    if appear == 0 {
        assert forall|i: int| 0 <= i < after.len() implies hash_of(
            before,
            (#[trigger] after[i]).0,
        ) is Some by {
            lemma_filter_empty(after, is_new(before), i);
        }
    }
}

/// Adding a bucket that is accepted compiles, passes every test, leaves every
/// bucket as it was, and brings exactly the one bucket that is reported.
pub proof fn law_accepted_addition_disturbs_nothing(
    before: Seq<(Seq<char>, Seq<char>)>,
    compiled: Result<Recompiled, String>,
    label: Seq<char>,
)
    requires
        add_verdict(before, compiled, label) is Ok,
    ensures
        compiled is Ok,
        ({
            let c = compiled->Ok_0;
            let after = pairs(c.hashes@);
            &&& forall|i: int| 0 <= i < c.tests@.len() ==> (#[trigger] c.tests@[i]).passes()
            &&& forall|i: int|
                0 <= i < before.len() ==> hash_of(after, (#[trigger] before[i]).0) == Some(
                    before[i].1,
                )
            &&& addresses(appeared(before, after)) == seq![add_verdict(before, compiled, label)->Ok_0.0]
        }),
{
    let c = compiled->Ok_0;
    let after = pairs(c.hashes@);
    lemma_first_failure(c.tests@);
    assert forall|i: int| 0 <= i < before.len() implies hash_of(after, (#[trigger] before[i]).0)
        == Some(before[i].1) by {
        lemma_filter_empty(before, is_disturbed(after), i);
    }
    assert(addresses(appeared(before, after)) =~= seq![
        add_verdict(before, compiled, label)->Ok_0.0,
    ]);
}

/// An edit is accepted exactly when it compiles, is atomic, and passes.
pub proof fn law_edit_passes_all_gates(
    compiled: Result<(), String>,
    atomic: Result<(), String>,
    tests: Result<(usize, usize), String>,
)
    ensures
        edit_verdict(compiled, atomic, tests) is Ok <==> compiled is Ok && atomic is Ok && tests
            is Ok,
{
}

/// The hash of an address is that of the last pair with it, and there is none
/// where no pair has it.
pub proof fn law_last_hash_counts(m: Seq<(Seq<char>, Seq<char>)>, address: Seq<char>, i: int)
    ensures
        0 <= i < m.len() && m[i].0 == address && (forall|j: int|
            i < j < m.len() ==> (#[trigger] m[j]).0 != address) ==> hash_of(m, address) == Some(
            m[i].1,
        ),
        (forall|j: int| 0 <= j < m.len() ==> (#[trigger] m[j]).0 != address) <==> hash_of(
            m,
            address,
        ) is None,
    decreases m.len(),
{
    if m.len() > 0 {
        let t = m.drop_last();
        law_last_hash_counts(t, address, i);
        if m.last().0 == address {
            assert(m[m.len() - 1].0 == address);
        } else {
            assert forall|j: int| 0 <= j < t.len() implies t[j] == m[j] by {}
            if forall|j: int| 0 <= j < t.len() ==> (#[trigger] t[j]).0 != address {
                assert forall|j: int| 0 <= j < m.len() implies (#[trigger] m[j]).0 != address by {
                    if j < t.len() {
                        assert(t[j].0 != address);
                    }
                }
            }
        }
    }
}

/// What appeared is what is there afterwards under an address that was not there
/// before, in order.
pub proof fn law_new_addresses_appear(
    before: Seq<(Seq<char>, Seq<char>)>,
    a: Seq<(Seq<char>, Seq<char>)>,
    b: Seq<(Seq<char>, Seq<char>)>,
)
    ensures
        appeared(before, Seq::empty()).len() == 0,
        a.len() == 1 ==> appeared(before, a) == if exists|j: int|
            0 <= j < before.len() && (#[trigger] before[j]).0 == a[0].0 {
            Seq::empty()
        } else {
            a
        },
        appeared(before, a + b) == appeared(before, a) + appeared(before, b),
{
    reveal(Seq::filter);
    Seq::filter_distributes_over_add(a, b, is_new(before));
    if a.len() == 1 {
        law_last_hash_counts(before, a[0].0, 0);
        let none = Seq::<(Seq<char>, Seq<char>)>::empty();
        assert(a.drop_last() =~= none);
        assert(none.filter(is_new(before)) =~= none);
        assert(none.push(a[0]) =~= a);
    }
}

/// Where every bucket from before is as it was, nothing counts as disturbed;
/// where each is as it was, gone, or meant to change, nothing counts as changed
/// by accident.
pub proof fn law_undisturbed_pairs_are_not_listed(
    before: Seq<(Seq<char>, Seq<char>)>,
    after: Seq<(Seq<char>, Seq<char>)>,
    meant: Seq<Seq<char>>,
)
    ensures
        (forall|i: int|
            0 <= i < before.len() ==> hash_of(after, (#[trigger] before[i]).0) == Some(
                before[i].1,
            )) ==> disturbed(before, after).len() == 0,
        (forall|i: int|
            0 <= i < before.len() ==> {
                ||| hash_of(after, (#[trigger] before[i]).0) == Some(before[i].1)
                ||| hash_of(after, before[i].0) is None
                ||| meant.contains(before[i].0)
            }) ==> collateral(before, after, meant).len() == 0,
    decreases before.len(),
{
    reveal(Seq::filter);
    if before.len() > 0 {
        let t = before.drop_last();
        law_undisturbed_pairs_are_not_listed(t, after, meant);
        assert forall|i: int| 0 <= i < t.len() implies t[i] == before[i] by {}
    }
}

/// Each bucket that changed, is still there and was not meant to change counts
/// as changed by accident, and each that is not as it was counts as disturbed.
pub proof fn law_disturbed_pairs_are_listed(
    before: Seq<(Seq<char>, Seq<char>)>,
    after: Seq<(Seq<char>, Seq<char>)>,
    meant: Seq<Seq<char>>,
    i: int,
)
    requires
        0 <= i < before.len(),
    ensures
        hash_of(after, before[i].0) != Some(before[i].1) ==> disturbed(before, after).contains(
            before[i],
        ),
        hash_of(after, before[i].0) is Some && hash_of(after, before[i].0) != Some(before[i].1)
            && !meant.contains(before[i].0) ==> collateral(before, after, meant).contains(before[i]),
{
    if hash_of(after, before[i].0) != Some(before[i].1) {
        before.lemma_filter_contains_rev(is_disturbed(after), before[i]);
        if hash_of(after, before[i].0) is Some && !meant.contains(before[i].0) {
            before.lemma_filter_contains_rev(is_collateral(after, meant), before[i]);
        }
    }
}

/// The first test that does not pass is the failure that is told.
pub proof fn law_first_failure_is_told(tests: Seq<TestOutcome>, i: int)
    ensures
        0 <= i < tests.len() && !tests[i].passes() && (forall|j: int|
            0 <= j < i ==> (#[trigger] tests[j]).passes()) ==> first_failure(tests) == Some(
            tests[i],
        ),
    decreases tests.len(),
{
    if tests.len() > 0 && tests[0].passes() {
        let t = tests.skip(1);
        law_first_failure_is_told(t, i - 1);
        assert forall|j: int| 0 <= j < t.len() implies t[j] == tests[j + 1] by {}
    }
}

/// There is no failure where every test passes.
pub proof fn law_no_failure_where_all_pass(tests: Seq<TestOutcome>)
    requires
        forall|i: int| 0 <= i < tests.len() ==> (#[trigger] tests[i]).passes(),
    ensures
        first_failure(tests) is None,
{
    lemma_first_failure(tests);
}

/// A report counts the tests that pass and tells of each other one what it is
/// about and what went wrong, in order.
pub proof fn law_report_counts_and_tells_failures(a: Seq<TestOutcome>, b: Seq<TestOutcome>)
    ensures
        passing(Seq::empty()) == 0,
        failure_lines(Seq::empty()) == Seq::<char>::empty(),
        a.len() == 1 && a[0].passes() ==> passing(a) == 1 && failure_lines(a)
            == Seq::<char>::empty(),
        a.len() == 1 && !a[0].passes() ==> passing(a) == 0 && failure_lines(a) == "\n"@ + (
        a[0].about() + ": "@ + (match a[0].error {
            Some(e) => e@,
            None => "expected an error, got a value"@,
        })) + "\n"@,
        passing(a + b) == passing(a) + passing(b),
        failure_lines(a + b) == failure_lines(a) + failure_lines(b),
        test_report(a) == text::decimal(passing(a)) + "/"@ + text::decimal(a.len())
            + " tests passed\n"@ + failure_lines(a),
    decreases b.len(),
{
    if a.len() == 1 {
        assert(a.drop_last() =~= Seq::<TestOutcome>::empty());
        assert(passing(a.drop_last()) == 0);
        assert(failure_lines(a.drop_last()) =~= Seq::<char>::empty());
        assert(Seq::<char>::empty() + failure_line(a[0]) =~= failure_line(a[0]));
    }
    if b.len() == 0 {
        assert(a + b =~= a);
        assert(failure_lines(a) + failure_lines(b) =~= failure_lines(a));
    } else {
        law_report_counts_and_tells_failures(a, b.drop_last());
        assert((a + b).drop_last() =~= a + b.drop_last());
        assert((a + b).last() == b.last());
        assert(failure_lines(a + b) =~= failure_lines(a) + failure_lines(b));
    }
}

/// Why a change is refused: what the compiler says; how many buckets appeared,
/// vanished and changed, against how many should have; or which test it broke.
pub proof fn law_refused_change_is_told_why(
    before: Seq<(Seq<char>, Seq<char>)>,
    compiled: Result<Recompiled, String>,
    appear: nat,
    vanish: nat,
    meant: Seq<Seq<char>>,
    label: Seq<char>,
)
    ensures
        compiled matches Err(e) ==> change_verdict(before, compiled, appear, vanish, meant) == Err::<
            nat,
            Seq<char>,
        >(e@) && add_verdict(before, compiled, label) == Err::<(Seq<char>, nat), Seq<char>>(e@),
        compiled matches Ok(c) ==> ({
            let after = pairs(c.hashes@);
            let came = appeared(before, after).len();
            let went = appeared(after, before).len();
            let moved = collateral(before, after, meant).len();
            let shaken = disturbed(before, after).len();
            let told = change_verdict(before, compiled, appear, vanish, meant);
            let added = add_verdict(before, compiled, label);
            let clean = came == appear && went == vanish && moved == 0;
            &&& !clean ==> told == Err::<nat, Seq<char>>(
                "that was not a clean change: "@ + text::decimal(came)
                    + " bucket(s) appeared (expected "@ + text::decimal(appear) + "), "@
                    + text::decimal(went) + " vanished (expected "@ + text::decimal(vanish)
                    + "), and "@ + text::decimal(moved)
                    + " other bucket(s) changed. Write only what was asked and do not close a brace you did not open."@,
            )
            &&& clean && first_failure(c.tests@) is Some ==> (told matches Err(e)
                && text::contains_text(e, first_failure(c.tests@)->0.about())
                && text::contains_text(e, first_failure(c.tests@)->0.desc@))
            &&& clean && first_failure(c.tests@) is None ==> told == Ok::<nat, Seq<char>>(
                c.tests@.len(),
            )
            &&& came != 1 || shaken != 0 ==> (added matches Err(e) && text::contains_text(e, label)
                && text::contains_text(e, text::decimal(came)) && text::contains_text(
                e,
                text::decimal(shaken),
            ))
            &&& came == 1 && shaken == 0 && first_failure(c.tests@) is Some ==> (added matches Err(e)
                && text::contains_text(e, label) && text::contains_text(
                e,
                first_failure(c.tests@)->0.about(),
            ))
            &&& came == 1 && shaken == 0 && first_failure(c.tests@) is None ==> added == Ok::<
                (Seq<char>, nat),
                Seq<char>,
            >((appeared(before, after)[0].0, c.tests@.len()))
        }),
{
    if let Ok(c) = compiled {
        let after = pairs(c.hashes@);
        let came = text::decimal(appeared(before, after).len());
        let shaken = text::decimal(disturbed(before, after).len());
        if let Some(t) = first_failure(c.tests@) {
            lemma_broken_message(t);
            let a = t.about();
            let m = "adding "@ + label + " broke an existing test ("@ + a + "）"@;
            text::law_parts_of_a_text(
                "adding "@,
                " broke an existing test ("@ + a + "）"@,
                label,
            );
            assert(m =~= "adding "@ + label + (" broke an existing test ("@ + a + "）"@));
            text::law_parts_of_a_text("adding "@ + label + " broke an existing test ("@, "）"@, a);
        }
        let w1 = " was not clean: "@;
        let w2 = " bucket(s) appeared and "@;
        let w3 =
            " existing bucket(s) changed. Write only the body expression and do not close a brace you did not open."@;
        let m = "adding "@ + label + w1 + came + w2 + shaken + w3;
        text::law_parts_of_a_text("adding "@, w1 + came + w2 + shaken + w3, label);
        assert(m =~= "adding "@ + label + (w1 + came + w2 + shaken + w3));
        text::law_parts_of_a_text("adding "@ + label + w1, w2 + shaken + w3, came);
        assert(m =~= "adding "@ + label + w1 + came + (w2 + shaken + w3));
        text::law_parts_of_a_text("adding "@ + label + w1 + came + w2, w3, shaken);
    }
}

proof fn lemma_broken_message(t: TestOutcome)
    ensures
        text::contains_text(broken_message(t), t.about()),
        text::contains_text(broken_message(t), t.desc@),
{
    let front = "that change broke the test on "@;
    let back =
        "`.\n\nIf the behaviour was *meant* to change, make the body change and the test change together: pass a `tests` array to patch_bucket in the same call. Doing it in two steps cannot work -- new tests fail against the old body, and the old test fails against the new body. If the behaviour was not meant to change, fix the body instead."@;
    let a = t.about();
    text::law_parts_of_a_text(front, ": `"@ + t.desc@ + back, a);
    assert(broken_message(t) =~= front + a + (": `"@ + t.desc@ + back));
    text::law_parts_of_a_text(front + a + ": `"@, back, t.desc@);
}

/// What is said of an edit: the first gate that refuses it speaks, a change that
/// is not atomic is answered with a hint behind what was found, and an edit that
/// passes is told how many of its tests ran and passed.
pub proof fn law_edit_is_told_the_first_refusal(
    compiled: Result<(), String>,
    atomic: Result<(), String>,
    tests: Result<(usize, usize), String>,
)
    ensures
        ({
            let told = edit_verdict(compiled, atomic, tests);
            &&& compiled matches Err(e) ==> told == Err::<Seq<char>, Seq<char>>(e@)
            &&& compiled is Ok && atomic is Err ==> (told matches Err(t) && text::starts_with(
                t,
                (atomic->Err_0)@,
            ))
            &&& compiled is Ok && atomic is Ok && tests is Err ==> told == Err::<
                Seq<char>,
                Seq<char>,
            >((tests->Err_0)@)
            &&& compiled is Ok && atomic is Ok && tests is Ok ==> told == Ok::<
                Seq<char>,
                Seq<char>,
            >(
                "accepted. "@ + text::decimal((tests->Ok_0).1 as nat) + "/"@ + text::decimal(
                    (tests->Ok_0).0 as nat,
                ) + " related test(s) pass."@,
            )
        }),
{
    if compiled is Ok && atomic is Err {
        text::law_parts_of_a_text(
            Seq::empty(),
            "\n\nhint: write only the expression; do not close the bucket's brace"@,
            (atomic->Err_0)@,
        );
    }
}

/// There is a failure where some test does not pass.
pub proof fn law_a_failure_is_noticed(tests: Seq<TestOutcome>)
    requires
        !(forall|i: int| 0 <= i < tests.len() ==> (#[trigger] tests[i]).passes()),
    ensures
        first_failure(tests) is Some,
{
    lemma_first_failure(tests);
}

/// Addresses with their hashes are read pair by pair, and a count as what it
/// holds.
pub proof fn law_pairs_are_read_in_order(v: Seq<(String, String)>, i: int, n: usize, e: String)
    ensures
        pairs(v).len() == v.len() && (0 <= i < v.len() ==> pairs(v)[i] == (v[i].0@, v[i].1@)),
        counted(Ok(n)) == Ok::<nat, Seq<char>>(n as nat),
        counted(Err(e)) == Err::<nat, Seq<char>>(e@),
{
}

/// What is said of a test that a change broke, and of an addition that was not
/// clean or broke a test, word for word.
pub proof fn law_broken_tests_are_told(
    before: Seq<(Seq<char>, Seq<char>)>,
    compiled: Result<Recompiled, String>,
    label: Seq<char>,
    t: TestOutcome,
)
    requires
        compiled is Ok,
    ensures
        ({
            let c = compiled->Ok_0;
            let after = pairs(c.hashes@);
            let came = appeared(before, after).len();
            let shaken = disturbed(before, after).len();
            &&& came == 0 && appeared(after, before).len() == 0 && collateral(
                before,
                after,
                Seq::empty(),
            ).len() == 0 && first_failure(c.tests@) == Some(t) ==> change_verdict(
                before,
                compiled,
                0,
                0,
                Seq::empty(),
            ) == Err::<nat, Seq<char>>(
                "that change broke the test on "@ + t.about() + ": `"@ + t.desc@
                    + "`.\n\nIf the behaviour was *meant* to change, make the body change and the test change together: pass a `tests` array to patch_bucket in the same call. Doing it in two steps cannot work -- new tests fail against the old body, and the old test fails against the new body. If the behaviour was not meant to change, fix the body instead."@,
            )
            &&& came == 1 && shaken == 0 && first_failure(c.tests@) == Some(t) ==> add_verdict(
                before,
                compiled,
                label,
            ) == Err::<(Seq<char>, nat), Seq<char>>(
                "adding "@ + label + " broke an existing test ("@ + t.about() + "）"@,
            )
            &&& came != 1 || shaken != 0 ==> add_verdict(before, compiled, label) == Err::<
                (Seq<char>, nat),
                Seq<char>,
            >(
                "adding "@ + label + " was not clean: "@ + text::decimal(came)
                    + " bucket(s) appeared and "@ + text::decimal(shaken)
                    + " existing bucket(s) changed. Write only the body expression and do not close a brace you did not open."@,
            )
        }),
{
}

/// An edit that is not atomic is answered with what was found and with a hint.
pub proof fn law_edits_that_are_not_atomic(e: String, tests: Result<(usize, usize), String>)
    ensures
        edit_verdict(Ok(()), Err(e), tests) == Err::<Seq<char>, Seq<char>>(
            e@ + "\n\nhint: write only the expression; do not close the bucket's brace"@,
        ),
{
}

} // verus!
