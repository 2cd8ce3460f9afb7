//! English in, bucket addresses out.
//!
//! An agent asked to "round prices down to cents" has to turn that sentence
//! into an address before any of the editing machinery applies.
//!
//! Matching is over the **description** first, then the label and parameter
//! names. That ordering is the design, not a heuristic: the description is the
//! field written for this purpose, and it is the only one that can carry the
//! words a person would actually use.
//!
//! Deliberately keyword scoring rather than embeddings: no API call, no index
//! to keep warm, no cold-start. It is also tuned for **recall**: a target the
//! retriever misses is one the model cannot fix, whereas an extra candidate is
//! cheap for the model to discard. So this returns a ranked shortlist and lets
//! the caller (or the model) choose, instead of guessing at a single answer.
//!
//! Scores are whole numbers, in hundredths of a description hit.

use crate::program;
use crate::program::{Bucket, Param, Program};
use crate::text;
use vstd::prelude::*;

verus! {

/// A bucket that a query hit.
#[derive(Debug, Clone)]
pub struct Match {
    pub address: String,
    pub label: Option<String>,
    pub desc: String,
    pub contract: String,
    /// The sum of all hits, in hundredths.
    pub score: u128,
    /// How many words the query has. The score of one word is `score / words`.
    pub words: usize,
    /// Which query words hit, so a caller can see *why* this ranked where it
    /// did.
    pub matched: Vec<String>,
}

/// A match, as contracts speak of it.
pub struct MatchView {
    pub address: Seq<char>,
    pub label: Option<Seq<char>>,
    pub desc: Seq<char>,
    pub contract: Seq<char>,
    pub score: nat,
    pub words: nat,
    pub matched: Seq<Seq<char>>,
}

impl View for Match {
    type V = MatchView;

    open spec fn view(&self) -> MatchView {
        MatchView {
            address: self.address@,
            label: text::opt_text(self.label),
            desc: self.desc@,
            contract: self.contract@,
            score: self.score as nat,
            words: self.words as nat,
            matched: text::texts(self.matched@),
        }
    }
}

// --------------------------------------------------------------------- words

/// Words too common to carry signal. Kept short on purpose: an aggressive stop
/// list costs recall, and recall is the thing being optimised for.
pub open spec fn stop_word(w: Seq<char>) -> bool {
    ||| w == "a"@
    ||| w == "an"@
    ||| w == "and"@
    ||| w == "the"@
    ||| w == "to"@
    ||| w == "of"@
    ||| w == "in"@
    ||| w == "on"@
    ||| w == "for"@
    ||| w == "is"@
    ||| w == "it"@
    ||| w == "that"@
    ||| w == "this"@
    ||| w == "with"@
    ||| w == "make"@
    ||| w == "makes"@
    ||| w == "change"@
    ||| w == "changes"@
    ||| w == "fix"@
    ||| w == "update"@
    ||| w == "should"@
    ||| w == "can"@
    ||| w == "i"@
    ||| w == "want"@
    ||| w == "please"@
}

fn is_stop_word(w: &str) -> (r: bool)
    ensures
        r == stop_word(w@),
{
    text::same(w, "a") || text::same(w, "an") || text::same(w, "and") || text::same(w, "the")
        || text::same(w, "to") || text::same(w, "of") || text::same(w, "in") || text::same(w, "on")
        || text::same(w, "for") || text::same(w, "is") || text::same(w, "it") || text::same(
        w,
        "that",
    ) || text::same(w, "this") || text::same(w, "with") || text::same(w, "make") || text::same(
        w,
        "makes",
    ) || text::same(w, "change") || text::same(w, "changes") || text::same(w, "fix") || text::same(
        w,
        "update",
    ) || text::same(w, "should") || text::same(w, "can") || text::same(w, "i") || text::same(
        w,
        "want",
    ) || text::same(w, "please")
}

/// The words that carry signal.
pub open spec fn significant(words: Seq<Seq<char>>) -> Seq<Seq<char>> {
    words.filter(|w: Seq<char>| !stop_word(w))
}

/// The words in lower case.
pub open spec fn lowered_words(words: Seq<Seq<char>>) -> Seq<Seq<char>> {
    words.map_values(|w: Seq<char>| text::lowered(w))
}

/// The words of a text that carry signal, in lower case.
pub open spec fn tokens(s: Seq<char>) -> Seq<Seq<char>> {
    significant(lowered_words(text::words(s, text::Cut::NotAlphanumeric)))
}

/// Leave the stop words out. The words are in lower case.
pub fn without_stop_words(words: &Vec<String>) -> (r: Vec<String>)
    ensures
        text::texts(r@) == significant(text::texts(words@)),
{
    let ghost all = text::texts(words@);
    let ghost keep = |w: Seq<char>| !stop_word(w);
    let mut out: Vec<String> = Vec::new();
    let mut i: usize = 0;
    proof {
        reveal(Seq::filter);
        assert(all.take(0).filter(keep) =~= text::texts(out@));
    }
    while i < words.len()
        invariant
            i <= words@.len(),
            all == text::texts(words@),
            keep == (|w: Seq<char>| !stop_word(w)),
            text::texts(out@) == all.take(i as int).filter(keep),
        decreases words@.len() - i,
    {
        proof {
            text::lemma_filter_step(all, keep, i as int);
        }
        if !is_stop_word(&words[i]) {
            let ghost before = text::texts(out@);
            out.push(words[i].clone());
            assert(text::texts(out@) =~= before.push(all[i as int]));
        }
        i = i + 1;
    }
    assert(all.take(words@.len() as int) =~= all);
    out
}

pub fn tokenize(s: &str) -> (r: Vec<String>)
    ensures
        text::texts(r@) == tokens(s@),
{
    let words = text::words_of(s, text::Cut::NotAlphanumeric);
    let mut lowered: Vec<String> = Vec::new();
    let mut i: usize = 0;
    while i < words.len()
        invariant
            i <= words@.len(),
            lowered@.len() == i,
            forall|j: int| 0 <= j < i ==> (#[trigger] lowered@[j])@ == text::lowered(words@[j]@),
        decreases words@.len() - i,
    {
        lowered.push(words[i].to_lowercase());
        i = i + 1;
    }
    assert(text::texts(lowered@) =~= lowered_words(text::texts(words@)));
    without_stop_words(&lowered)
}

/// The word is long enough to be cut by the suffix, and ends in it.
pub open spec fn has_suffix(w: Seq<char>, suffix: Seq<char>) -> bool {
    text::size(w) > text::size(suffix) + 2 && text::ends_with(w, suffix)
}

/// The word without a common English suffix.
pub open spec fn stemmed(w: Seq<char>) -> Seq<char> {
    if has_suffix(w, "ing"@) {
        w.take(w.len() - "ing"@.len())
    } else if has_suffix(w, "ed"@) {
        w.take(w.len() - "ed"@.len())
    } else if has_suffix(w, "es"@) {
        w.take(w.len() - "es"@.len())
    } else if has_suffix(w, "s"@) {
        w.take(w.len() - "s"@.len())
    } else {
        w
    }
}

fn cut_suffix(w: &str, suffix: &str) -> (r: Option<String>)
    ensures
        match r {
            Some(s) => has_suffix(w@, suffix@) && s@ == w@.take(w@.len() - suffix@.len()),
            None => !has_suffix(w@, suffix@),
        },
{
    let n: usize = text::byte_len(suffix);
    let have: usize = text::byte_len(w);
    if have <= n || have - n <= 2 || !text::finishes(w, suffix) {
        return None;
    }
    let v = text::chars_of(w);
    let s = text::chars_of(suffix);
    let k: usize = v.len() - s.len();
    let r = text::string_of(&v, 0, k);
    assert(v@.subrange(0, k as int) =~= v@.take(k as int));
    Some(r)
}

/// Crude but effective stemming: fold common English suffixes so "rounding",
/// "rounds", and "rounded" all reach "round". A real stemmer would be better;
/// this covers the cases that actually come up in a request phrased as a task.
pub fn stem(w: &str) -> (r: String)
    ensures
        r@ == stemmed(w@),
{
    match cut_suffix(w, "ing") {
        Some(s) => {
            return s;
        },
        None => {},
    }
    match cut_suffix(w, "ed") {
        Some(s) => {
            return s;
        },
        None => {},
    }
    match cut_suffix(w, "es") {
        Some(s) => {
            return s;
        },
        None => {},
    }
    match cut_suffix(w, "s") {
        Some(s) => {
            return s;
        },
        None => {},
    }
    w.to_owned()
}

/// The stems of a list of words.
pub open spec fn stems(words: Seq<Seq<char>>) -> Seq<Seq<char>> {
    words.map_values(|w: Seq<char>| stemmed(w))
}

fn stem_all(words: &Vec<String>) -> (r: Vec<String>)
    ensures
        text::texts(r@) == stems(text::texts(words@)),
{
    let mut out: Vec<String> = Vec::new();
    let mut i: usize = 0;
    while i < words.len()
        invariant
            i <= words@.len(),
            out@.len() == i,
            forall|j: int| 0 <= j < i ==> out@[j]@ == stemmed(words@[j]@),
        decreases words@.len() - i,
    {
        out.push(stem(&words[i]));
        i = i + 1;
    }
    assert(text::texts(out@) =~= stems(text::texts(words@)));
    out
}

// -------------------------------------------------------------------- scores

/// One of the words starts with the stem, or the stem with it.
pub open spec fn overlaps(words: Seq<Seq<char>>, stem: Seq<char>) -> bool {
    exists|i: int|
        #![trigger words[i]]
        0 <= i < words.len() && (text::starts_with(words[i], stem) || text::starts_with(
            stem,
            words[i],
        ))
}

/// What a query word earns in a field with those stems, in tenths: all for a
/// word of the field, partial credit for a prefix overlap, since recall counts
/// for more than precision.
pub open spec fn credit(words: Seq<Seq<char>>, query_word: Seq<char>) -> nat {
    if words.contains(stemmed(query_word)) {
        10
    } else if overlaps(words, stemmed(query_word)) {
        4
    } else {
        0
    }
}

fn find_overlap(words: &Vec<String>, stem: &str) -> (r: bool)
    ensures
        r == overlaps(text::texts(words@), stem@),
{
    let ghost all = text::texts(words@);
    let mut i: usize = 0;
    while i < words.len()
        invariant
            i <= words@.len(),
            all == text::texts(words@),
            forall|j: int|
                #![trigger all[j]]
                0 <= j < i ==> !(text::starts_with(all[j], stem@) || text::starts_with(
                    stem@,
                    all[j],
                )),
        decreases words@.len() - i,
    {
        if text::begins(&words[i], stem) || text::begins(stem, &words[i]) {
            assert(all[i as int] == words@[i as int]@);
            return true;
        }
        assert(all[i as int] == words@[i as int]@);
        i = i + 1;
    }
    false
}

fn credit_of(words: &Vec<String>, query_word: &str) -> (r: u128)
    ensures
        r == credit(text::texts(words@), query_word@),
{
    let s = stem(query_word);
    if text::has_text(words, &s) {
        10
    } else if find_overlap(words, &s) {
        4
    } else {
        0
    }
}

/// What a whole query earns in a field with those stems, at a weight in tenths.
pub open spec fn total(words: Seq<Seq<char>>, query: Seq<Seq<char>>, weight: nat) -> nat
    decreases query.len(),
{
    if query.len() == 0 {
        0
    } else {
        total(words, query.drop_last(), weight) + credit(words, query.last()) * weight
    }
}

/// The query words that earn something.
pub open spec fn hits(words: Seq<Seq<char>>, query: Seq<Seq<char>>) -> Seq<Seq<char>> {
    query.filter(|q: Seq<char>| credit(words, q) > 0)
}

/// The stems of a field's words.
pub open spec fn field_words(field: Seq<char>) -> Seq<Seq<char>> {
    stems(tokens(field))
}

fn field_score(query: &Vec<String>, field: &str, weight: u128, found: &mut Vec<String>) -> (r: u128)
    requires
        weight <= 10,
    ensures
        r == total(field_words(field@), text::texts(query@), weight as nat),
        r <= 100 * query@.len(),
        text::texts(final(found)@) == text::texts(old(found)@) + hits(
            field_words(field@),
            text::texts(query@),
        ),
{
    score_words(query, &stem_all(&tokenize(field)), weight, found)
}

/// What a query earns in a field with those stems, at a weight in tenths. The
/// words that hit are added to `found`.
pub fn score_words(
    query: &Vec<String>,
    words: &Vec<String>,
    weight: u128,
    found: &mut Vec<String>,
) -> (r: u128)
    requires
        weight <= 10,
    ensures
        r == total(text::texts(words@), text::texts(query@), weight as nat),
        r <= 100 * query@.len(),
        text::texts(final(found)@) == text::texts(old(found)@) + hits(
            text::texts(words@),
            text::texts(query@),
        ),
{
    let ghost all = text::texts(query@);
    let ghost stems = text::texts(words@);
    let ghost keep = |q: Seq<char>| credit(stems, q) > 0;
    let ghost first = text::texts(found@);
    let mut score: u128 = 0;
    let mut i: usize = 0;
    assert(all.take(0).filter(keep) =~= Seq::<Seq<char>>::empty()) by {
        reveal(Seq::filter);
    }
    assert(first + Seq::<Seq<char>>::empty() =~= first);
    while i < query.len()
        invariant
            i <= query@.len(),
            weight <= 10,
            all == text::texts(query@),
            stems == text::texts(words@),
            keep == (|q: Seq<char>| credit(stems, q) > 0),
            score == total(stems, all.take(i as int), weight as nat),
            score <= 100 * i,
            text::texts(found@) == first + all.take(i as int).filter(keep),
        decreases query@.len() - i,
    {
        let c: u128 = credit_of(words, &query[i]);
        proof {
            text::lemma_filter_step(all, keep, i as int);
            assert(all.take(i + 1).drop_last() =~= all.take(i as int));
            assert(0 <= c * weight <= 100) by (nonlinear_arith)
                requires
                    0 <= c <= 10,
                    0 <= weight <= 10,
            ;
        }
        score = score + c * weight;
        if c > 0 {
            let ghost before = text::texts(found@);
            found.push(query[i].clone());
            assert(text::texts(found@) =~= before.push(all[i as int]));
            assert(before.push(all[i as int]) =~= first + all.take(i as int).filter(keep).push(
                all[i as int],
            ));
        }
        i = i + 1;
    }
    assert(all.take(query@.len() as int) =~= all);
    score
}

/// The names of parameters, as one text.
pub open spec fn param_names(params: Seq<Param>) -> Seq<char> {
    text::joined(params.map_values(|p: Param| p.name@), " "@)
}

fn names_of(params: &Vec<Param>) -> (r: String)
    ensures
        r@ == param_names(params@),
{
    let mut out: Vec<String> = Vec::new();
    let mut i: usize = 0;
    while i < params.len()
        invariant
            i <= params@.len(),
            out@.len() == i,
            forall|j: int| 0 <= j < i ==> out@[j]@ == params@[j].name@,
        decreases params@.len() - i,
    {
        out.push(params[i].name.clone());
        i = i + 1;
    }
    assert(text::texts(out@) =~= params@.map_values(|p: Param| p.name@));
    text::join(&out, " ")
}

/// The score of a bucket. Its description carries the most weight: it is the
/// field written to be searched, and the one a caller sees instead of the body.
pub open spec fn score(b: Bucket, query: Seq<Seq<char>>) -> nat {
    total(field_words(b.desc@), query, 10) + (match b.label {
        Some(l) => total(field_words(l@), query, 7),
        None => 0,
    }) + total(field_words(param_names(b.params@)), query, 3)
}

/// The query words that hit a bucket, field by field.
pub open spec fn all_hits(b: Bucket, query: Seq<Seq<char>>) -> Seq<Seq<char>> {
    hits(field_words(b.desc@), query) + (match b.label {
        Some(l) => hits(field_words(l@), query),
        None => Seq::empty(),
    }) + hits(field_words(param_names(b.params@)), query)
}

// ------------------------------------------------------------------- listing

/// Where a word belongs in an ascending list.
pub open spec fn place(list: Seq<Seq<char>>, w: Seq<char>) -> int
    decreases list.len(),
{
    if list.len() == 0 || text::before(list.last(), w) {
        list.len() as int
    } else {
        place(list.drop_last(), w)
    }
}

/// The words of a list, each once, in ascending order.
pub open spec fn distinct(words: Seq<Seq<char>>) -> Seq<Seq<char>>
    decreases words.len(),
{
    if words.len() == 0 {
        Seq::empty()
    } else {
        let rest = distinct(words.drop_last());
        if rest.contains(words.last()) {
            rest
        } else {
            rest.insert(place(rest, words.last()), words.last())
        }
    }
}

fn find_place(list: &Vec<String>, w: &str) -> (r: usize)
    ensures
        r == place(text::texts(list@), w@),
        r <= list@.len(),
{
    let ghost all = text::texts(list@);
    let mut n: usize = list.len();
    assert(all.take(n as int) =~= all);
    while n > 0 && !text::comes_before(&list[n - 1], w)
        invariant
            n <= list@.len(),
            all == text::texts(list@),
            place(all, w@) == place(all.take(n as int), w@),
        decreases n,
    {
        assert(all.take(n as int).last() == list@[n - 1]@);
        assert(all.take(n as int).drop_last() =~= all.take(n - 1));
        n = n - 1;
    }
    assert(n > 0 ==> all.take(n as int).last() == list@[n - 1]@);
    n
}

fn distinct_of(words: &Vec<String>) -> (r: Vec<String>)
    ensures
        text::texts(r@) == distinct(text::texts(words@)),
{
    let ghost all = text::texts(words@);
    let mut out: Vec<String> = Vec::new();
    let mut i: usize = 0;
    assert(all.take(0) =~= Seq::<Seq<char>>::empty());
    assert(text::texts(out@) =~= Seq::<Seq<char>>::empty());
    while i < words.len()
        invariant
            i <= words@.len(),
            all == text::texts(words@),
            text::texts(out@) == distinct(all.take(i as int)),
        decreases words@.len() - i,
    {
        assert(all.take(i + 1).drop_last() =~= all.take(i as int));
        assert(all.take(i + 1).last() == words@[i as int]@);
        if !text::has_text(&out, &words[i]) {
            let k: usize = find_place(&out, &words[i]);
            let ghost before = text::texts(out@);
            out.insert(k, words[i].clone());
            assert(text::texts(out@) =~= before.insert(k as int, words@[i as int]@));
        }
        i = i + 1;
    }
    assert(all.take(words@.len() as int) =~= all);
    out
}

/// The match that a bucket makes.
pub open spec fn match_of(b: Bucket, query: Seq<Seq<char>>) -> MatchView {
    MatchView {
        address: b.address@,
        label: text::opt_text(b.label),
        desc: b.desc@,
        contract: program::contract(b),
        score: score(b, query),
        words: query.len(),
        matched: distinct(all_hits(b, query)),
    }
}

/// The matches of all buckets that can be edited and have a hit, in the order
/// of the program.
pub open spec fn candidates(buckets: Seq<Bucket>, query: Seq<Seq<char>>) -> Seq<MatchView>
    decreases buckets.len(),
{
    if buckets.len() == 0 {
        Seq::empty()
    } else {
        let rest = candidates(buckets.drop_last(), query);
        let b = buckets.last();
        if b.user && score(b, query) > 0 {
            rest.push(match_of(b, query))
        } else {
            rest
        }
    }
}

/// `a` goes before `b`: by a higher score, and by the address where the scores
/// are equal, so that results do not shuffle between runs.
pub open spec fn outranks(a: MatchView, b: MatchView) -> bool {
    a.score > b.score || (a.score == b.score && text::before(a.address, b.address))
}

/// How many of the leading matches of a ranking stay in front of `m`.
pub open spec fn rank(order: Seq<MatchView>, m: MatchView) -> int
    decreases order.len(),
{
    if order.len() == 0 || !outranks(m, order.last()) {
        order.len() as int
    } else {
        rank(order.drop_last(), m)
    }
}

/// The matches, best first.
pub open spec fn ranking(matches: Seq<MatchView>) -> Seq<MatchView>
    decreases matches.len(),
{
    if matches.len() == 0 {
        Seq::empty()
    } else {
        let rest = ranking(matches.drop_last());
        rest.insert(rank(rest, matches.last()), matches.last())
    }
}

/// The views of a list of matches.
pub open spec fn views(v: Seq<Match>) -> Seq<MatchView> {
    v.map_values(|m: Match| m@)
}

fn find_rank(order: &Vec<Match>, m: &Match) -> (r: usize)
    ensures
        r == rank(views(order@), m@),
        r <= order@.len(),
{
    let ghost all = views(order@);
    let mut n: usize = order.len();
    assert(all.take(n as int) =~= all);
    while n > 0 && (m.score > order[n - 1].score || (m.score == order[n - 1].score
        && text::comes_before(&m.address, &order[n - 1].address)))
        invariant
            n <= order@.len(),
            all == views(order@),
            rank(all, m@) == rank(all.take(n as int), m@),
        decreases n,
    {
        assert(all.take(n as int).last() == order@[n - 1]@);
        assert(all.take(n as int).drop_last() =~= all.take(n - 1));
        n = n - 1;
    }
    assert(n > 0 ==> all.take(n as int).last() == order@[n - 1]@);
    n
}

/// What a search for a query finds.
pub open spec fn found(buckets: Seq<Bucket>, query: Seq<char>, limit: nat) -> Seq<MatchView> {
    let order = ranking(candidates(buckets, tokens(query)));
    if order.len() <= limit {
        order
    } else {
        order.take(limit as int)
    }
}

fn try_match(b: &Bucket, query: &Vec<String>) -> (r: Option<Match>)
    ensures
        match r {
            Some(m) => score(*b, text::texts(query@)) > 0 && m@ == match_of(
                *b,
                text::texts(query@),
            ),
            None => score(*b, text::texts(query@)) == 0,
        },
{
    let ghost q = text::texts(query@);
    let mut found: Vec<String> = Vec::new();
    assert(text::texts(found@) =~= Seq::<Seq<char>>::empty());
    let n: usize = query.len();
    let mut sum: u128 = field_score(query, &b.desc, 10, &mut found);
    match &b.label {
        Some(label) => {
            sum = sum + field_score(query, label, 7, &mut found);
        },
        None => {},
    }
    sum = sum + field_score(query, &names_of(&b.params), 3, &mut found);
    assert(text::texts(found@) =~= all_hits(*b, q));
    if sum == 0 {
        return None;
    }
    Some(
        Match {
            address: b.address.clone(),
            label: text::copy_opt(&b.label),
            desc: b.desc.clone(),
            contract: program::contract_of(b),
            score: sum,
            words: n,
            matched: distinct_of(&found),
        },
    )
}

/// Rank user buckets against an English query.
///
/// Returns at most `limit` matches, best first. Buckets with no hit at all are
/// omitted; an empty result means the request named nothing in this program.
pub fn search(program: &Program, query: &str, limit: usize) -> (r: Vec<Match>)
    ensures
        views(r@) == found(program.buckets@, query@, limit as nat),
{
    let q = tokenize(query);
    let ghost qs = text::texts(q@);
    let ghost all = program.buckets@;
    let mut out: Vec<Match> = Vec::new();
    let mut i: usize = 0;
    assert(all.take(0) =~= Seq::<Bucket>::empty());
    assert(views(out@) =~= Seq::<MatchView>::empty());
    while i < program.buckets.len()
        invariant
            i <= all.len(),
            all == program.buckets@,
            qs == text::texts(q@),
            views(out@) == ranking(candidates(all.take(i as int), qs)),
        decreases all.len() - i,
    {
        assert(all.take(i + 1).drop_last() =~= all.take(i as int));
        assert(all.take(i + 1).last() == all[i as int]);
        // Only user buckets are editable, so only user buckets are findable.
        if program.buckets[i].user {
            match try_match(&program.buckets[i], &q) {
                Some(m) => {
                    let k: usize = find_rank(&out, &m);
                    let ghost before = views(out@);
                    out.insert(k, m);
                    assert(views(out@) =~= before.insert(k as int, m@));
                    proof {
                        let c = candidates(all.take(i as int), qs);
                        assert(c.push(m@).drop_last() =~= c);
                    }
                },
                None => {},
            }
        }
        i = i + 1;
    }
    assert(all.take(all.len() as int) =~= all);
    let ghost order = views(out@);
    if out.len() > limit {
        out.truncate(limit);
        assert(views(out@) =~= order.take(limit as int));
    }
    out
}

/// A line of the shortlist.
pub open spec fn shortlist_line(m: MatchView) -> Seq<char> {
    m.address + "  "@ + text::or_else(m.label, Seq::empty()) + m.contract + "  \""@ + m.desc
        + "\"\n"@
}

/// The lines of the shortlist.
pub open spec fn shortlist_lines(matches: Seq<MatchView>) -> Seq<char>
    decreases matches.len(),
{
    if matches.len() == 0 {
        Seq::empty()
    } else {
        shortlist_lines(matches.drop_last()) + shortlist_line(matches.last())
    }
}

/// A shortlist for a model to choose from.
pub open spec fn shortlist(matches: Seq<MatchView>) -> Seq<char> {
    if matches.len() == 0 {
        "no buckets matched that request\n"@
    } else {
        "# candidate buckets\n"@ + shortlist_lines(matches)
    }
}

/// Render a shortlist for a model to choose from.
///
/// Description only, no bodies. Choosing what to edit should cost a handful of
/// tokens, not a copy of the program.
pub fn render_shortlist(matches: &[Match]) -> (r: String)
    ensures
        r@ == shortlist(views(matches@)),
{
    if matches.len() == 0 {
        return "no buckets matched that request\n".to_owned();
    }
    let ghost all = views(matches@);
    let mut s = "# candidate buckets\n".to_owned();
    let mut i: usize = 0;
    assert(all.take(0) =~= Seq::<MatchView>::empty());
    assert(s@ =~= "# candidate buckets\n"@ + shortlist_lines(all.take(0)));
    while i < matches.len()
        invariant
            i <= matches@.len(),
            all == views(matches@),
            s@ == "# candidate buckets\n"@ + shortlist_lines(all.take(i as int)),
        decreases matches@.len() - i,
    {
        let m = &matches[i];
        let ghost before = s@;
        let mut line = m.address.clone();
        line.append("  ");
        line.append(&text::text_or(&m.label, ""));
        line.append(&m.contract);
        line.append("  \"");
        line.append(&m.desc);
        line.append("\"\n");
        s.append(&line);
        proof {
            reveal_strlit("");
            assert(""@ =~= Seq::<char>::empty());
            assert(all.take(i + 1).drop_last() =~= all.take(i as int));
            assert(all.take(i + 1).last() == m@);
            assert(line@ == shortlist_line(m@));
            assert(s@ =~= "# candidate buckets\n"@ + shortlist_lines(all.take(i + 1)));
        }
        i = i + 1;
    }
    assert(all.take(matches@.len() as int) =~= all);
    s
}

// ---------------------------------------------------------------------- laws

/// A ranking neither drops nor invents a match, and nothing stands behind a
/// match that it outranks.
pub proof fn law_ranking_is_best_first(matches: Seq<MatchView>)
    ensures
        ranking(matches).to_multiset() == matches.to_multiset(),
        ranking(matches).len() == matches.len(),
        forall|i: int, j: int|
            0 <= i < j < matches.len() ==> !outranks(
                #[trigger] ranking(matches)[j],
                #[trigger] ranking(matches)[i],
            ),
    decreases matches.len(),
{
    broadcast use vstd::seq_lib::group_to_multiset_ensures;

    if matches.len() > 0 {
        let head = matches.drop_last();
        let m = matches.last();
        law_ranking_is_best_first(head);
        let rest = ranking(head);
        lemma_rank(rest, m);
        assert(matches =~= head.push(m));
        let k = rank(rest, m);
        let order = rest.insert(k, m);
        assert forall|i: int, j: int| 0 <= i < j < order.len() implies !outranks(
            #[trigger] order[j],
            #[trigger] order[i],
        ) by {
            if i == k {
                lemma_outranks_asymmetric(m, rest[j - 1]);
            } else if j == k {
                lemma_not_outranked(rest, m, i);
            } else {
                let a = if i < k { i } else { i - 1 };
                let b = if j < k { j } else { j - 1 };
                assert(order[i] == rest[a] && order[j] == rest[b]);
            }
        }
    } else {
        assert(ranking(matches) =~= matches);
    }
}

proof fn lemma_rank(order: Seq<MatchView>, m: MatchView)
    ensures
        0 <= rank(order, m) <= order.len(),
        forall|i: int| rank(order, m) <= i < order.len() ==> outranks(m, #[trigger] order[i]),
        rank(order, m) > 0 ==> !outranks(m, order[rank(order, m) - 1]),
    decreases order.len(),
{
    if order.len() > 0 && outranks(m, order.last()) {
        lemma_rank(order.drop_last(), m);
        assert forall|i: int| rank(order, m) <= i < order.len() implies outranks(
            m,
            #[trigger] order[i],
        ) by {
            if i < order.len() - 1 {
                assert(order.drop_last()[i] == order[i]);
            }
        }
    }
}

/// A match in front of one that `m` does not outrank is not outranked either.
proof fn lemma_not_outranked(order: Seq<MatchView>, m: MatchView, i: int)
    requires
        0 <= i < rank(order, m),
        forall|i: int, j: int|
            0 <= i < j < order.len() ==> !outranks(#[trigger] order[j], #[trigger] order[i]),
    ensures
        !outranks(m, order[i]),
{
    lemma_rank(order, m);
    let k = rank(order, m) - 1;
    if outranks(m, order[i]) && i < k {
        // Then m would outrank the one at k too.
        assert(!outranks(order[k], order[i]));
        let a = m;
        let b = order[i];
        let c = order[k];
        text::lemma_before_total(b.address, c.address);
        if a.score == b.score && b.score == c.score {
            if b.address != c.address {
                text::lemma_before_transitive(a.address, b.address, c.address);
            }
        }
        assert(outranks(a, c));
    }
}

proof fn lemma_outranks_asymmetric(a: MatchView, b: MatchView)
    requires
        outranks(a, b),
    ensures
        !outranks(b, a),
{
    text::lemma_before_total(a.address, b.address);
}

/// The bucket that a candidate stands for.
proof fn lemma_candidate_source(buckets: Seq<Bucket>, query: Seq<Seq<char>>, k: int) -> (i: int)
    requires
        0 <= k < candidates(buckets, query).len(),
    ensures
        0 <= i < buckets.len(),
        buckets[i].user,
        score(buckets[i], query) > 0,
        candidates(buckets, query)[k] == match_of(buckets[i], query),
    decreases buckets.len(),
{
    let rest = candidates(buckets.drop_last(), query);
    if k < rest.len() {
        lemma_candidate_source(buckets.drop_last(), query, k)
    } else {
        buckets.len() - 1
    }
}

/// Where the candidate stands that a bucket makes.
proof fn lemma_candidate_listed(buckets: Seq<Bucket>, query: Seq<Seq<char>>, i: int) -> (k: int)
    requires
        0 <= i < buckets.len(),
        buckets[i].user,
        score(buckets[i], query) > 0,
    ensures
        0 <= k < candidates(buckets, query).len(),
        candidates(buckets, query)[k] == match_of(buckets[i], query),
    decreases buckets.len(),
{
    if i < buckets.len() - 1 {
        lemma_candidate_listed(buckets.drop_last(), query, i)
    } else {
        candidates(buckets.drop_last(), query).len() as int
    }
}

/// A search returns at most `limit` matches, best first, each of them of a user
/// bucket that the query hit.
pub proof fn law_search_returns_the_best(buckets: Seq<Bucket>, query: Seq<char>, limit: nat)
    ensures
        found(buckets, query, limit).len() <= limit,
        forall|i: int, j: int|
            0 <= i < j < found(buckets, query, limit).len() ==> !outranks(
                #[trigger] found(buckets, query, limit)[j],
                #[trigger] found(buckets, query, limit)[i],
            ),
        forall|k: int|
            0 <= k < found(buckets, query, limit).len() ==> exists|i: int|
                0 <= i < buckets.len() && (#[trigger] buckets[i]).user && score(
                    buckets[i],
                    tokens(query),
                ) > 0 && #[trigger] found(buckets, query, limit)[k] == match_of(
                    buckets[i],
                    tokens(query),
                ),
{
    let q = tokens(query);
    let all = candidates(buckets, q);
    let order = ranking(all);
    let r = found(buckets, query, limit);
    law_ranking_is_best_first(all);
    assert forall|k: int| 0 <= k < r.len() implies exists|i: int|
        0 <= i < buckets.len() && (#[trigger] buckets[i]).user && score(buckets[i], q) > 0
            && #[trigger] r[k] == match_of(buckets[i], q) by {
        assert(r[k] == order[k]);
        lemma_same_items(order, all, k);
        let c = choose|c: int| 0 <= c < all.len() && all[c] == order[k];
        let i = lemma_candidate_source(buckets, q, c);
        assert(buckets[i].user && r[k] == match_of(buckets[i], q));
    }
    assert forall|i: int, j: int| 0 <= i < j < r.len() implies !outranks(
        #[trigger] r[j],
        #[trigger] r[i],
    ) by {
        assert(r[i] == order[i] && r[j] == order[j]);
    }
}

/// A search leaves out a bucket that the query hit only where more buckets were
/// hit than the limit allows.
pub proof fn law_search_misses_nothing(
    buckets: Seq<Bucket>,
    query: Seq<char>,
    limit: nat,
    i: int,
)
    requires
        0 <= i < buckets.len(),
        buckets[i].user,
        score(buckets[i], tokens(query)) > 0,
        candidates(buckets, tokens(query)).len() <= limit,
    ensures
        found(buckets, query, limit).contains(match_of(buckets[i], tokens(query))),
{
    let q = tokens(query);
    let all = candidates(buckets, q);
    law_ranking_is_best_first(all);
    let c = lemma_candidate_listed(buckets, q, i);
    lemma_same_items(all, ranking(all), c);
}

proof fn lemma_same_items(a: Seq<MatchView>, b: Seq<MatchView>, k: int)
    requires
        a.to_multiset() == b.to_multiset(),
        0 <= k < a.len(),
    ensures
        b.contains(a[k]),
{
    broadcast use vstd::seq_lib::group_to_multiset_ensures;

    assert(a.contains(a[k]));
    assert(a.to_multiset().count(a[k]) > 0);
    assert(b.to_multiset().count(a[k]) > 0);
}

/// The same words earn most in a description, less in a label, and least in the
/// names of parameters, strictly so where any of them hits.
pub proof fn law_description_weighs_most(words: Seq<Seq<char>>, query: Seq<Seq<char>>)
    ensures
        total(words, query, 10) >= total(words, query, 7) >= total(words, query, 3),
        total(words, query, 3) > 0 ==> total(words, query, 10) > total(words, query, 7) > total(
            words,
            query,
            3,
        ),
    decreases query.len(),
{
    if query.len() > 0 {
        law_description_weighs_most(words, query.drop_last());
    }
}

/// The hit list names each query word once, in ascending order.
pub proof fn law_matched_words_are_distinct(words: Seq<Seq<char>>)
    ensures
        forall|i: int, j: int|
            0 <= i < j < distinct(words).len() ==> text::before(
                #[trigger] distinct(words)[i],
                #[trigger] distinct(words)[j],
            ),
        forall|w: Seq<char>| distinct(words).contains(w) == words.contains(w),
    decreases words.len(),
{
    if words.len() > 0 {
        let head = words.drop_last();
        let w = words.last();
        law_matched_words_are_distinct(head);
        let rest = distinct(head);
        let all = distinct(words);
        assert forall|x: Seq<char>| all.contains(x) == words.contains(x) by {
            assert(rest.contains(x) == head.contains(x));
            if words.contains(x) {
                let i = choose|i: int| 0 <= i < words.len() && words[i] == x;
                if i < words.len() - 1 {
                    assert(head[i] == x);
                }
            }
            if head.contains(x) {
                let i = choose|i: int| 0 <= i < head.len() && head[i] == x;
                assert(words[i] == x);
            }
            assert(words[words.len() - 1] == w);
            if !rest.contains(w) {
                let k = place(rest, w);
                lemma_place(rest, w);
                assert(all[k] == w);
                if rest.contains(x) {
                    let i = choose|i: int| 0 <= i < rest.len() && rest[i] == x;
                    assert(all[if i < k { i } else { i + 1 }] == x);
                }
                if all.contains(x) {
                    let i = choose|i: int| 0 <= i < all.len() && all[i] == x;
                    if i != k {
                        assert(rest[if i < k { i } else { i - 1 }] == x);
                    }
                }
            }
        }
        if !rest.contains(w) {
            let k = place(rest, w);
            lemma_place(rest, w);
            assert forall|i: int, j: int| 0 <= i < j < all.len() implies text::before(
                #[trigger] all[i],
                #[trigger] all[j],
            ) by {
                if i == k {
                    let b = rest[j - 1];
                    text::lemma_before_total(b, w);
                    assert(all[j] == b);
                    assert(rest.contains(b));
                } else if j == k {
                    assert(all[i] == rest[i]);
                    if i < k - 1 {
                        text::lemma_before_transitive(rest[i], rest[k - 1], w);
                    }
                } else {
                    let a = if i < k { i } else { i - 1 };
                    let b = if j < k { j } else { j - 1 };
                    assert(all[i] == rest[a] && all[j] == rest[b]);
                }
            }
        }
    }
}

proof fn lemma_place(list: Seq<Seq<char>>, w: Seq<char>)
    ensures
        0 <= place(list, w) <= list.len(),
        place(list, w) > 0 ==> text::before(list[place(list, w) - 1], w),
        forall|i: int| place(list, w) <= i < list.len() ==> !text::before(#[trigger] list[i], w),
    decreases list.len(),
{
    if list.len() > 0 && !text::before(list.last(), w) {
        lemma_place(list.drop_last(), w);
        assert forall|i: int| place(list, w) <= i < list.len() implies !text::before(
            #[trigger] list[i],
            w,
        ) by {
            if i < list.len() - 1 {
                assert(list.drop_last()[i] == list[i]);
            }
        }
    }
}

/// A query word earns full credit in a field that holds its stem; where it does
/// not, four tenths if its stem begins with the stem of a word there or is the
/// beginning of one; and otherwise nothing.
pub proof fn law_prefix_overlap_earns_partial_credit(
    words: Seq<Seq<char>>,
    query_word: Seq<char>,
    i: int,
)
    ensures
        ({
            let stem = stemmed(query_word);
            &&& words.contains(stem) ==> credit(words, query_word) == 10
            &&& !words.contains(stem) && 0 <= i < words.len() && (words[i].is_prefix_of(stem)
                || stem.is_prefix_of(words[i])) ==> credit(words, query_word) == 4
            &&& (forall|j: int|
                0 <= j < words.len() ==> !stem.is_prefix_of(#[trigger] words[j])
                    && !words[j].is_prefix_of(stem)) ==> credit(words, query_word) == 0
        }),
{
    let stem = stemmed(query_word);
    if 0 <= i < words.len() {
        lemma_prefix(words[i], stem);
        lemma_prefix(stem, words[i]);
    }
    if forall|j: int|
        0 <= j < words.len() ==> !stem.is_prefix_of(#[trigger] words[j])
            && !words[j].is_prefix_of(stem) {
        assert forall|j: int| 0 <= j < words.len() implies words[j] != stem && !text::starts_with(
            #[trigger] words[j],
            stem,
        ) && !text::starts_with(stem, words[j]) by {
            lemma_prefix(words[j], stem);
            lemma_prefix(stem, words[j]);
            if words[j] == stem {
                assert(stem.subrange(0, stem.len() as int) =~= stem);
            }
        }
    }
}

proof fn lemma_prefix(s: Seq<char>, pat: Seq<char>)
    ensures
        text::starts_with(s, pat) == pat.is_prefix_of(s),
{
}

/// Overlap goes both ways: a query word earns in a field of one word what that
/// word would earn in a field of the query word.
pub proof fn law_overlap_is_symmetric(v: Seq<char>, w: Seq<char>)
    ensures
        credit(seq![stemmed(v)], w) == credit(seq![stemmed(w)], v),
{
    let a = seq![stemmed(v)];
    let b = seq![stemmed(w)];
    assert(a[0] == stemmed(v));
    assert(b[0] == stemmed(w));
    assert(a.contains(stemmed(w)) <==> stemmed(v) == stemmed(w));
    assert(b.contains(stemmed(v)) <==> stemmed(v) == stemmed(w));
    if overlaps(a, stemmed(w)) {
        assert(text::starts_with(b[0], a[0]) || text::starts_with(a[0], b[0]));
        assert(overlaps(b, stemmed(v)));
    }
    if overlaps(b, stemmed(v)) {
        assert(text::starts_with(b[0], a[0]) || text::starts_with(a[0], b[0]));
        assert(overlaps(a, stemmed(w)));
    }
}

/// Each word of the query counts for itself: the total over two runs of words is
/// the sum of the totals, and one word brings its credit times the weight.
pub proof fn law_query_words_count_apart(
    words: Seq<Seq<char>>,
    a: Seq<Seq<char>>,
    b: Seq<Seq<char>>,
    weight: nat,
)
    ensures
        total(words, Seq::empty(), weight) == 0,
        a.len() == 1 ==> total(words, a, weight) == credit(words, a[0]) * weight,
        total(words, a + b, weight) == total(words, a, weight) + total(words, b, weight),
    decreases b.len(),
{
    if a.len() == 1 {
        assert(a.drop_last() =~= Seq::<Seq<char>>::empty());
        assert(total(words, a.drop_last(), weight) == 0);
    }
    if b.len() == 0 {
        assert(a + b =~= a);
    } else {
        law_query_words_count_apart(words, a, b.drop_last(), weight);
        assert((a + b).drop_last() =~= a + b.drop_last());
        assert((a + b).last() == b.last());
    }
}

/// What one query word adds to the score of a bucket: its credit in the
/// description tenfold, in the label sevenfold, and in the names of the
/// parameters threefold. The scores of the words add up.
pub proof fn law_score_weighs_the_fields(
    b: Bucket,
    word: Seq<char>,
    one: Seq<Seq<char>>,
    two: Seq<Seq<char>>,
)
    ensures
        score(b, seq![word]) == 10 * credit(field_words(b.desc@), word) + (match b.label {
            Some(l) => 7 * credit(field_words(l@), word),
            None => 0,
        }) + 3 * credit(field_words(param_names(b.params@)), word),
        score(b, Seq::empty()) == 0,
        score(b, one + two) == score(b, one) + score(b, two),
{
    let none = Seq::<Seq<char>>::empty();
    law_query_words_count_apart(field_words(b.desc@), seq![word], none, 10);
    law_query_words_count_apart(field_words(b.desc@), one, two, 10);
    law_query_words_count_apart(field_words(param_names(b.params@)), seq![word], none, 3);
    law_query_words_count_apart(field_words(param_names(b.params@)), one, two, 3);
    if let Some(l) = b.label {
        law_query_words_count_apart(field_words(l@), seq![word], none, 7);
        law_query_words_count_apart(field_words(l@), one, two, 7);
    }
}

proof fn lemma_total_positive(
    words: Seq<Seq<char>>,
    query: Seq<Seq<char>>,
    weight: nat,
    j: int,
)
    requires
        0 <= j < query.len(),
        credit(words, query[j]) > 0,
        weight > 0,
    ensures
        total(words, query, weight) > 0,
    decreases query.len(),
{
    if j < query.len() - 1 {
        lemma_total_positive(words, query.drop_last(), weight, j);
    } else {
        let c = credit(words, query[j]);
        assert(c * weight > 0) by (nonlinear_arith)
            requires
                c > 0,
                weight > 0,
        ;
    }
}

/// A bucket of the user is found, when the limit allows, by any query with a word
/// whose stem begins, or is begun by, the stem of a word of its description, its
/// label or the names of its parameters. The match tells the bucket's address,
/// label, description and contract.
pub proof fn law_overlapping_bucket_is_found(
    buckets: Seq<Bucket>,
    query: Seq<char>,
    limit: nat,
    i: int,
    field: Seq<char>,
    j: int,
    k: int,
)
    requires
        0 <= i < buckets.len(),
        buckets[i].user,
        candidates(buckets, tokens(query)).len() <= limit,
        field == buckets[i].desc@ || text::opt_text(buckets[i].label) == Some(field) || field
            == param_names(buckets[i].params@),
        0 <= j < tokens(query).len(),
        0 <= k < tokens(field).len(),
        stemmed(tokens(field)[k]).is_prefix_of(stemmed(tokens(query)[j])) || stemmed(
            tokens(query)[j],
        ).is_prefix_of(stemmed(tokens(field)[k])),
    ensures
        exists|r: int|
            {
                let m = #[trigger] found(buckets, query, limit)[r];
                &&& 0 <= r < found(buckets, query, limit).len()
                &&& m.address == buckets[i].address@
                &&& m.label == text::opt_text(buckets[i].label)
                &&& m.desc == buckets[i].desc@
                &&& m.contract == program::contract(buckets[i])
                &&& m.score == score(buckets[i], tokens(query))
                &&& m.words == tokens(query).len()
            },
{
    let b = buckets[i];
    let q = tokens(query);
    let words = field_words(field);
    assert(words[k] == stemmed(tokens(field)[k]));
    law_prefix_overlap_earns_partial_credit(words, q[j], k);
    assert(credit(words, q[j]) > 0);
    if field == b.desc@ {
        lemma_total_positive(words, q, 10, j);
    } else if text::opt_text(b.label) == Some(field) {
        lemma_total_positive(words, q, 7, j);
    } else {
        lemma_total_positive(words, q, 3, j);
    }
    law_search_misses_nothing(buckets, query, limit, i);
    let f = found(buckets, query, limit);
    let r = choose|r: int| 0 <= r < f.len() && f[r] == match_of(b, q);
    assert(f[r].address == b.address@);
}

/// What a full search leaves out does not outrank what it returns.
pub proof fn law_limit_cuts_the_worst(
    buckets: Seq<Bucket>,
    query: Seq<char>,
    limit: nat,
    i: int,
)
    requires
        0 <= i < buckets.len(),
        buckets[i].user,
        score(buckets[i], tokens(query)) > 0,
        !found(buckets, query, limit).contains(match_of(buckets[i], tokens(query))),
    ensures
        found(buckets, query, limit).len() == limit,
        forall|k: int|
            0 <= k < limit ==> !outranks(
                match_of(buckets[i], tokens(query)),
                #[trigger] found(buckets, query, limit)[k],
            ),
{
    let q = tokens(query);
    let all = candidates(buckets, q);
    let order = ranking(all);
    let f = found(buckets, query, limit);
    law_ranking_is_best_first(all);
    let c = lemma_candidate_listed(buckets, q, i);
    lemma_same_items(all, order, c);
    let m = match_of(buckets[i], q);
    let at = choose|at: int| 0 <= at < order.len() && order[at] == m;
    if at < limit {
        assert(f[at] == m);
    }
    assert forall|k: int| 0 <= k < limit implies !outranks(m, #[trigger] f[k]) by {
        assert(f[k] == order[k]);
    }
}

/// A higher score ranks first, and among equals the address that comes first.
pub proof fn law_score_ranks_before_address(a: MatchView, b: MatchView)
    ensures
        a.score > b.score ==> outranks(a, b) && !outranks(b, a),
        a.score == b.score && text::before(a.address, b.address) ==> outranks(a, b) && !outranks(
            b,
            a,
        ),
        a.score == b.score && a.address == b.address ==> !outranks(a, b),
{
    text::lemma_before_total(a.address, b.address);
}

/// The words that a match tells are the query words that earned anything in one
/// of the fields.
pub proof fn law_matched_words_earned_credit(b: Bucket, query: Seq<Seq<char>>, w: Seq<char>)
    ensures
        match_of(b, query).matched.contains(w) <==> query.contains(w) && {
            ||| credit(field_words(b.desc@), w) > 0
            ||| b.label is Some && credit(field_words((b.label->0)@), w) > 0
            ||| credit(field_words(param_names(b.params@)), w) > 0
        },
{
    law_matched_words_are_distinct(all_hits(b, query));
    let d = field_words(b.desc@);
    let n = field_words(param_names(b.params@));
    lemma_hits(d, query, w);
    lemma_hits(n, query, w);
    let x = hits(d, query);
    let y = match b.label {
        Some(l) => hits(field_words(l@), query),
        None => Seq::empty(),
    };
    if let Some(l) = b.label {
        lemma_hits(field_words(l@), query, w);
    }
    let z = hits(n, query);
    lemma_contains_sum(x, y, w);
    lemma_contains_sum(x + y, z, w);
}

proof fn lemma_contains_sum(x: Seq<Seq<char>>, y: Seq<Seq<char>>, w: Seq<char>)
    ensures
        (x + y).contains(w) <==> x.contains(w) || y.contains(w),
{
    if x.contains(w) {
        let i = choose|i: int| 0 <= i < x.len() && x[i] == w;
        assert((x + y)[i] == w);
    }
    if y.contains(w) {
        let i = choose|i: int| 0 <= i < y.len() && y[i] == w;
        assert((x + y)[x.len() + i] == w);
    }
}

proof fn lemma_hits(words: Seq<Seq<char>>, query: Seq<Seq<char>>, w: Seq<char>)
    ensures
        hits(words, query).contains(w) <==> query.contains(w) && credit(words, w) > 0,
    decreases query.len(),
{
    reveal(Seq::filter);
    if query.len() > 0 {
        let t = query.drop_last();
        lemma_hits(words, t, w);
        lemma_contains_sum(t, seq![query.last()], w);
        assert(t + seq![query.last()] =~= query);
        assert(seq![query.last()].contains(w) <==> query.last() == w) by {
            assert(seq![query.last()][0] == query.last());
        }
        if credit(words, query.last()) > 0 {
            lemma_contains_sum(hits(words, t), seq![query.last()], w);
            assert(hits(words, query) =~= hits(words, t) + seq![query.last()]);
        } else {
            assert(hits(words, query) =~= hits(words, t));
        }
    }
}

/// A word loses the ending that marks a form of it, if more than two bytes are
/// left: `ing`, `ed`, `es` and `s`, of which the longest that fits goes.
pub proof fn law_stems_lose_their_endings(t: Seq<char>)
    ensures
        text::size(t) > 2 ==> stemmed(t + "ing"@) == t && stemmed(t + "ed"@) == t && stemmed(
            t + "es"@,
        ) == t && (t.last() != 'e' ==> stemmed(t + "s"@) == t),
        text::size(t) <= 2 ==> stemmed(t + "ing"@) == t + "ing"@ && stemmed(t + "ed"@) == t
            + "ed"@ && stemmed(t + "s"@) == t + "s"@,
        text::size(t) == 2 ==> stemmed(t + "es"@) == t + "e"@,
        t.len() > 0 && t.last() != 'g' && t.last() != 'd' && t.last() != 's' ==> stemmed(t) == t,
{
    lemma_stem_ing(t);
    lemma_stem_ed(t);
    lemma_stem_es(t);
    lemma_stem_s(t);
    lemma_last_of_ending(t);
}

proof fn lemma_stem_ing(t: Seq<char>)
    ensures
        stemmed(t + "ing"@) == if text::size(t) > 2 {
            t
        } else {
            t + "ing"@
        },
{
    let w = t + "ing"@;
    lemma_endings();
    text::lemma_size_add(t, "ing"@);
    assert(w.subrange(t.len() as int, w.len() as int) =~= "ing"@);
    assert(w.take(t.len() as int) =~= t);
    assert(w.last() == 'g');
    lemma_last_of_ending(w);
}

proof fn lemma_stem_ed(t: Seq<char>)
    ensures
        stemmed(t + "ed"@) == if text::size(t) > 2 {
            t
        } else {
            t + "ed"@
        },
{
    let w = t + "ed"@;
    lemma_endings();
    text::lemma_size_add(t, "ed"@);
    assert(w.subrange(t.len() as int, w.len() as int) =~= "ed"@);
    assert(w.take(t.len() as int) =~= t);
    assert(w.last() == 'd');
    lemma_last_of_ending(w);
}

proof fn lemma_stem_es(t: Seq<char>)
    ensures
        text::size(t) > 2 ==> stemmed(t + "es"@) == t,
        text::size(t) == 2 ==> stemmed(t + "es"@) == t + "e"@,
{
    let w = t + "es"@;
    lemma_endings();
    text::lemma_size_add(t, "es"@);
    assert(w.subrange(t.len() as int, w.len() as int) =~= "es"@);
    assert(w.take(t.len() as int) =~= t);
    assert(w.take(w.len() - 1) =~= t + "e"@);
    assert(w.subrange(w.len() - 1, w.len() as int) =~= "s"@);
    assert(w.last() == 's');
    lemma_last_of_ending(w);
}

proof fn lemma_stem_s(t: Seq<char>)
    ensures
        text::size(t) > 2 && t.last() != 'e' ==> stemmed(t + "s"@) == t,
        text::size(t) <= 2 ==> stemmed(t + "s"@) == t + "s"@,
{
    let w = t + "s"@;
    lemma_endings();
    text::lemma_size_add(t, "s"@);
    assert(w.subrange(t.len() as int, w.len() as int) =~= "s"@);
    assert(w.take(t.len() as int) =~= t);
    assert(w.last() == 's');
    lemma_last_of_ending(w);
    if t.len() == 0 {
        assert(text::size(t) == 0);
    } else {
        assert(w[w.len() - 2] == t.last());
    }
}

proof fn lemma_endings()
    ensures
        "ing"@.len() == 3 && "ing"@[2] == 'g',
        "ed"@.len() == 2 && "ed"@[1] == 'd',
        "es"@.len() == 2 && "es"@[0] == 'e' && "es"@[1] == 's',
        "s"@.len() == 1 && "s"@[0] == 's',
        "e"@.len() == 1 && "e"@[0] == 'e',
        text::size("ing"@) == 3,
        text::size("ed"@) == 2,
        text::size("es"@) == 2,
        text::size("s"@) == 1,
{
    reveal_strlit("ing");
    reveal_strlit("ed");
    reveal_strlit("es");
    reveal_strlit("s");
    reveal_strlit("e");
    let none = Seq::<char>::empty();
    assert(text::size(none) == 0);
    text::lemma_size_push(none, 's');
    assert(none.push('s') =~= "s"@);
    text::lemma_size_push(none, 'e');
    text::lemma_size_push(none.push('e'), 's');
    assert(none.push('e').push('s') =~= "es"@);
    text::lemma_size_push(none.push('e'), 'd');
    assert(none.push('e').push('d') =~= "ed"@);
    text::lemma_size_push(none, 'i');
    text::lemma_size_push(none.push('i'), 'n');
    text::lemma_size_push(none.push('i').push('n'), 'g');
    assert(none.push('i').push('n').push('g') =~= "ing"@);
}

proof fn lemma_last_of_ending(w: Seq<char>)
    ensures
        text::ends_with(w, "ing"@) ==> w.last() == 'g',
        text::ends_with(w, "ed"@) ==> w.last() == 'd',
        text::ends_with(w, "es"@) ==> w.last() == 's' && w[w.len() - 2] == 'e',
        text::ends_with(w, "s"@) ==> w.last() == 's',
{
    lemma_endings();
    let n = w.len() as int;
    if text::ends_with(w, "ing"@) {
        assert(w.subrange(n - 3, n)[2] == 'g');
    }
    if text::ends_with(w, "ed"@) {
        assert(w.subrange(n - 2, n)[1] == 'd');
    }
    if text::ends_with(w, "es"@) {
        assert(w.subrange(n - 2, n)[1] == 's');
        assert(w.subrange(n - 2, n)[0] == 'e');
    }
    if text::ends_with(w, "s"@) {
        assert(w.subrange(n - 1, n)[0] == 's');
    }
}

/// The words of a field or a query: a run of letters and digits is one word, in
/// lower case, unless it carries no meaning; any other character parts the words
/// before it from the words behind it.
pub proof fn law_tokens_are_the_meaningful_words(a: Seq<char>, c: char, b: Seq<char>)
    ensures
        tokens(Seq::empty()) == Seq::<Seq<char>>::empty(),
        a.len() > 0 && (forall|i: int| 0 <= i < a.len() ==> text::alphanumeric(#[trigger] a[i]))
            ==> tokens(a) == if stop_word(text::lowered(a)) {
            Seq::empty()
        } else {
            seq![text::lowered(a)]
        },
        !text::alphanumeric(c) ==> tokens(a.push(c) + b) == tokens(a) + tokens(b),
{
    let cut = text::Cut::NotAlphanumeric;
    text::law_words_part_at_cuts(a, c, b, cut);
    let none = Seq::<Seq<char>>::empty();
    assert(lowered_words(none) =~= none);
    lemma_significant(none, none);
    if a.len() > 0 && (forall|i: int| 0 <= i < a.len() ==> text::alphanumeric(#[trigger] a[i])) {
        assert forall|i: int| 0 <= i < a.len() implies !text::cuts(cut, #[trigger] a[i]) by {}
        assert(text::words(a, cut) == seq![a]);
        assert(lowered_words(seq![a]) =~= seq![text::lowered(a)]);
        lemma_significant(seq![text::lowered(a)], none);
    }
    if !text::alphanumeric(c) {
        let x = text::words(a, cut);
        let y = text::words(b, cut);
        assert(lowered_words(x + y) =~= lowered_words(x) + lowered_words(y));
        lemma_significant(lowered_words(x), lowered_words(y));
    }
}

proof fn lemma_significant(a: Seq<Seq<char>>, b: Seq<Seq<char>>)
    ensures
        significant(Seq::empty()) == Seq::<Seq<char>>::empty(),
        a.len() == 1 ==> significant(a) == if stop_word(a[0]) {
            Seq::empty()
        } else {
            a
        },
        significant(a + b) == significant(a) + significant(b),
    decreases b.len(),
{
    reveal(Seq::filter);
    let none = Seq::<Seq<char>>::empty();
    assert(significant(none) =~= none);
    if a.len() == 1 {
        assert(a.drop_last() =~= none);
        assert(significant(a) =~= if stop_word(a[0]) {
            none
        } else {
            a
        });
    }
    if b.len() == 0 {
        assert(a + b =~= a);
        assert(b =~= none);
        assert(significant(a) + significant(b) =~= significant(a));
    } else {
        lemma_significant(a, b.drop_last());
        assert((a + b).drop_last() =~= a + b.drop_last());
        assert((a + b).last() == b.last());
        assert(significant(a + b) =~= significant(a) + significant(b));
    }
}

/// Articles, prepositions, pronouns and the verbs of asking carry no meaning;
/// every other word does.
pub proof fn law_words_without_meaning(w: Seq<char>)
    ensures
        stop_word(w) <==> seq![
            "a"@, "an"@, "and"@, "the"@, "to"@, "of"@, "in"@, "on"@, "for"@, "is"@, "it"@,
            "that"@, "this"@, "with"@, "make"@, "makes"@, "change"@, "changes"@, "fix"@,
            "update"@, "should"@, "can"@, "i"@, "want"@, "please"@,
        ].contains(w),
{
    let all = seq![
        "a"@, "an"@, "and"@, "the"@, "to"@, "of"@, "in"@, "on"@, "for"@, "is"@, "it"@,
        "that"@, "this"@, "with"@, "make"@, "makes"@, "change"@, "changes"@, "fix"@,
        "update"@, "should"@, "can"@, "i"@, "want"@, "please"@,
    ];
    assert(all[0] == "a"@ && all[1] == "an"@ && all[2] == "and"@ && all[3] == "the"@ && all[4]
        == "to"@ && all[5] == "of"@ && all[6] == "in"@ && all[7] == "on"@ && all[8] == "for"@
        && all[9] == "is"@ && all[10] == "it"@ && all[11] == "that"@ && all[12] == "this"@
        && all[13] == "with"@ && all[14] == "make"@ && all[15] == "makes"@ && all[16]
        == "change"@ && all[17] == "changes"@ && all[18] == "fix"@ && all[19] == "update"@
        && all[20] == "should"@ && all[21] == "can"@ && all[22] == "i"@ && all[23] == "want"@
        && all[24] == "please"@);
}

/// A shortlist has a line for each match, in order, with its address, label,
/// contract and description.
pub proof fn law_shortlist_has_a_line_for_each_match(a: Seq<MatchView>, b: Seq<MatchView>)
    ensures
        a.len() == 1 ==> shortlist_lines(a) == a[0].address + "  "@ + (match a[0].label {
            Some(l) => l,
            None => Seq::empty(),
        }) + a[0].contract + "  \""@ + a[0].desc + "\"\n"@,
        shortlist_lines(a + b) == shortlist_lines(a) + shortlist_lines(b),
        a.len() > 0 ==> shortlist(a) == "# candidate buckets\n"@ + shortlist_lines(a),
        shortlist(Seq::empty()) == "no buckets matched that request\n"@,
    decreases b.len(),
{
    if a.len() == 1 {
        let none = Seq::<char>::empty();
        assert(a.drop_last() =~= Seq::<MatchView>::empty());
        assert(shortlist_lines(a.drop_last()) =~= none);
        assert(none + shortlist_line(a[0]) =~= shortlist_line(a[0]));
    }
    if b.len() == 0 {
        assert(a + b =~= a);
        assert(shortlist_lines(a) + shortlist_lines(b) =~= shortlist_lines(a));
    } else {
        law_shortlist_has_a_line_for_each_match(a, b.drop_last());
        assert((a + b).drop_last() =~= a + b.drop_last());
        assert((a + b).last() == b.last());
        assert(shortlist_lines(a + b) =~= shortlist_lines(a) + shortlist_lines(b));
    }
}

/// The names of the parameters are searched one by one: each parts into its own
/// words.
pub proof fn law_parameter_names_are_searched(a: Seq<Param>, b: Seq<Param>)
    ensures
        param_names(Seq::empty()) == Seq::<char>::empty(),
        a.len() == 1 ==> param_names(a) == a[0].name@,
        a.len() > 0 && b.len() > 0 ==> param_names(a + b) == param_names(a) + seq![' ']
            + param_names(b),
{
    let f = |p: Param| p.name@;
    reveal_strlit(" ");
    assert(" "@ =~= seq![' ']);
    assert(Seq::<Param>::empty().map_values(f) =~= Seq::<Seq<char>>::empty());
    assert((a + b).map_values(f) =~= a.map_values(f) + b.map_values(f));
    text::law_joining_puts_the_separator_between(a.map_values(f), b.map_values(f), " "@);
}

/// What contracts say of a match is what it holds, field by field.
pub proof fn law_matches_are_read_as_they_are(m: Match)
    ensures
        m@.address == m.address@ && m@.desc == m.desc@ && m@.contract == m.contract@,
        m@.label == text::opt_text(m.label),
        m@.score == m.score && m@.words == m.words,
        m@.matched == text::texts(m.matched@),
{
}

/// A list of matches is read item by item.
pub proof fn law_lists_of_matches_are_read_in_order(m: Seq<Match>, i: int)
    ensures
        views(m).len() == m.len() && (0 <= i < m.len() ==> views(m)[i] == m[i]@),
{
}

} // verus!
