//! Source-level surgery on a whole bucket declaration.
//!
//! The language records a span for the *body* only, which is all a body edit
//! needs. Renaming, changing a contract, or deleting requires the whole
//! declaration, and it is derived here from the span rather than by searching
//! for the label: a search could match anywhere.
//!
//! Spans count bytes; the functions below count characters. [`locate`] leads
//! from one to the other.

use crate::json;
use crate::json::{Json, JsonView};
use crate::program::Span;
use crate::text;
use vstd::prelude::*;

verus! {

/// The span lies in the source and does not cut a character.
pub open spec fn span_fits(s: Seq<char>, span: Span) -> bool {
    &&& span.start <= span.end
    &&& text::on_boundary(s, span.start as nat)
    &&& text::on_boundary(s, span.end as nat)
}

/// The character that a span begins at.
pub open spec fn first_char(s: Seq<char>, span: Span) -> int {
    text::fitting(s, span.start as nat) as int
}

/// The character that a span ends before.
pub open spec fn end_char(s: Seq<char>, span: Span) -> int {
    text::fitting(s, span.end as nat) as int
}

/// The text in a span.
pub open spec fn body_text(s: Seq<char>, span: Span) -> Seq<char> {
    s.subrange(first_char(s, span), end_char(s, span))
}

/// A span that fits begins before it ends.
pub proof fn lemma_span_order(s: Seq<char>, span: Span)
    requires
        span_fits(s, span),
    ensures
        0 <= first_char(s, span) <= end_char(s, span) <= s.len(),
{
    text::lemma_fitting(s, span.start as nat);
    text::lemma_fitting(s, span.end as nat);
    let a = first_char(s, span);
    let b = end_char(s, span);
    if b < a {
        text::lemma_size_grows(s, b, a);
    }
}

/// The characters that a span covers; `None` if it does not fit the source.
pub fn locate(v: &[char], span: Span) -> (r: Option<(usize, usize)>)
    ensures
        match r {
            Some((a, b)) => {
                &&& span_fits(v@, span)
                &&& a == first_char(v@, span)
                &&& b == end_char(v@, span)
                &&& a <= b <= v@.len()
            },
            None => !span_fits(v@, span),
        },
{
    if span.start > span.end {
        return None;
    }
    match (text::char_index(v, span.start), text::char_index(v, span.end)) {
        (Some(a), Some(b)) => {
            proof {
                lemma_span_order(v@, span);
            }
            Some((a, b))
        },
        _ => None,
    }
}

/// Whether a span lies in the source and does not cut a character.
pub fn fits(source: &str, span: Span) -> (r: bool)
    ensures
        r == span_fits(source@, span),
{
    let v = text::chars_of(source);
    locate(&v, span).is_some()
}

// --------------------------------------------------------------- annotations

/// The line is an annotation that belongs to the declaration below it.
pub open spec fn is_annotation(line: Seq<char>) -> bool {
    let t = text::trim(line);
    text::starts_with(t, "@test"@) || text::starts_with(t, "@entry"@)
}

fn annotates(line: &str) -> (r: bool)
    ensures
        r == is_annotation(line@),
{
    let t = text::trimmed(line);
    text::begins(&t, "@test") || text::begins(&t, "@entry")
}

/// The line marks the entry point.
pub open spec fn is_entry(line: Seq<char>) -> bool {
    text::starts_with(text::trim(line), "@entry"@)
}

/// One of the lines marks the entry point.
pub open spec fn has_entry(lines: Seq<Seq<char>>) -> bool {
    exists|i: int| 0 <= i < lines.len() && is_entry(#[trigger] lines[i])
}

pub(crate) fn marks_entry(lines: &Vec<String>) -> (r: bool)
    ensures
        r == has_entry(text::texts(lines@)),
{
    let ghost all = text::texts(lines@);
    let mut i: usize = 0;
    while i < lines.len()
        invariant
            i <= lines@.len(),
            all == text::texts(lines@),
            forall|j: int| 0 <= j < i ==> !is_entry(#[trigger] all[j]),
        decreases lines@.len() - i,
    {
        assert(all[i as int] == lines@[i as int]@);
        if text::begins(&text::trimmed(&lines[i]), "@entry") {
            return true;
        }
        i = i + 1;
    }
    false
}

/// The line that begins at `start`, and all annotations right above it.
pub open spec fn with_annotations(s: Seq<char>, start: int) -> int
    decreases start,
    via with_annotations_decreases
{
    if start <= 1 {
        start
    } else {
        let above = text::after_last(s, '\n', start - 1);
        if is_annotation(s.subrange(above, start - 1)) {
            with_annotations(s, above)
        } else {
            start
        }
    }
}

#[via_fn]
proof fn with_annotations_decreases(s: Seq<char>, start: int) {
    if start > 1 {
        lemma_after_last_bounds(s, '\n', start - 1);
    }
}

proof fn lemma_after_last_bounds(s: Seq<char>, c: char, to: int)
    requires
        to >= 0,
    ensures
        0 <= text::after_last(s, c, to) <= to,
    decreases to,
{
    if to > 0 && s[to - 1] != c {
        lemma_after_last_bounds(s, c, to - 1);
    }
}

// -------------------------------------------------------------- declarations

/// Where the declaration begins whose body begins at `a`: at the first of its
/// annotations, or at the line of its signature.
pub open spec fn decl_start(s: Seq<char>, a: int) -> int {
    with_annotations(s, text::after_last(s, '\n', a))
}

/// Where the declaration ends whose body ends at `b`: after the next closing
/// brace, or at `b` itself if there is none.
pub open spec fn decl_end(s: Seq<char>, b: int) -> int {
    let brace = text::next_char(s, '}', b);
    if brace < s.len() {
        brace + 1
    } else {
        b
    }
}

/// Characters covering a bucket's entire declaration: any `@test` / `@entry`
/// lines above it, the signature line, and the body through its closing brace.
pub fn decl_range(v: &[char], a: usize, b: usize) -> (r: (usize, usize))
    requires
        a <= b <= v@.len(),
    ensures
        r.0 == decl_start(v@, a as int),
        r.1 == decl_end(v@, b as int),
        r.0 <= a,
        b <= r.1 <= v@.len(),
{
    let brace: usize = text::find_from(v, '}', b);
    let end: usize = if brace < v.len() {
        brace + 1
    } else {
        b
    };
    let mut start: usize = text::find_back(v, '\n', a);
    loop
        invariant
            start <= a <= v@.len(),
            with_annotations(v@, start as int) == decl_start(v@, a as int),
        ensures
            start == decl_start(v@, a as int),
            start <= a,
        decreases start,
    {
        if start <= 1 {
            break;
        }
        let above: usize = text::find_back(v, '\n', start - 1);
        let line = text::string_of(v, above, start - 1);
        if !annotates(&line) {
            break;
        }
        start = above;
    }
    (start, end)
}

/// The leading annotations of a list of lines.
pub open spec fn leading(lines: Seq<Seq<char>>) -> Seq<Seq<char>>
    decreases lines.len(),
{
    if lines.len() == 0 || !is_annotation(lines[0]) {
        Seq::empty()
    } else {
        seq![lines[0]] + leading(lines.skip(1))
    }
}

/// The annotation lines of the declaration whose body begins at `a`.
pub open spec fn annotations(s: Seq<char>, a: int) -> Seq<Seq<char>> {
    leading(text::lines(s.skip(decl_start(s, a))))
}

/// The `@test` / `@entry` annotation lines attached to a bucket.
pub fn decl_annotations(v: &[char], a: usize, b: usize) -> (r: Vec<String>)
    requires
        a <= b <= v@.len(),
    ensures
        text::texts(r@) == annotations(v@, a as int),
{
    let (start, _) = decl_range(v, a, b);
    let rest = text::string_of(v, start, v.len());
    assert(v@.subrange(start as int, v@.len() as int) =~= v@.skip(start as int));
    let lines = text::lines_of(&rest);
    let ghost all = text::texts(lines@);
    let mut out: Vec<String> = Vec::new();
    let mut i: usize = 0;
    assert(all.skip(0) =~= all);
    assert(text::texts(out@) + leading(all.skip(0)) =~= leading(all));
    while i < lines.len() && annotates(&lines[i])
        invariant
            i <= lines@.len(),
            all == text::texts(lines@),
            text::texts(out@) + leading(all.skip(i as int)) == leading(all),
        decreases lines@.len() - i,
    {
        let ghost before = text::texts(out@);
        out.push(lines[i].clone());
        proof {
            let here = all.skip(i as int);
            assert(here[0] == lines@[i as int]@);
            assert(here.skip(1) =~= all.skip(i + 1));
            assert(text::texts(out@) =~= before.push(here[0]));
            assert(before.push(here[0]) + leading(all.skip(i + 1)) =~= before + leading(here));
        }
        i = i + 1;
    }
    proof {
        let here = all.skip(i as int);
        if i < lines@.len() {
            assert(here[0] == lines@[i as int]@);
        }
        assert(leading(here) =~= Seq::<Seq<char>>::empty());
        assert(text::texts(out@) + leading(here) =~= text::texts(out@));
    }
    out
}

/// The text without its leading line breaks.
pub open spec fn trim_breaks(s: Seq<char>) -> Seq<char>
    decreases s.len(),
{
    if s.len() > 0 && s[0] == '\n' {
        trim_breaks(s.skip(1))
    } else {
        s
    }
}

/// The source with another text in place of a declaration.
pub open spec fn with_decl(s: Seq<char>, a: int, b: int, decl: Seq<char>) -> Seq<char> {
    s.take(decl_start(s, a)) + decl + s.skip(decl_end(s, b))
}

/// The source without a declaration and the blank lines that it leaves behind.
pub open spec fn without_decl(s: Seq<char>, a: int, b: int) -> Seq<char> {
    s.take(decl_start(s, a)) + trim_breaks(s.skip(decl_end(s, b)))
}

/// Replace a whole declaration, or delete it when `replacement` is `None`.
pub fn splice_decl(v: &[char], a: usize, b: usize, replacement: Option<&str>) -> (r: String)
    requires
        a <= b <= v@.len(),
    ensures
        r@ == match replacement {
            Some(decl) => with_decl(v@, a as int, b as int, decl@),
            None => without_decl(v@, a as int, b as int),
        },
{
    let (start, end) = decl_range(v, a, b);
    let mut out = text::string_of(v, 0, start);
    assert(v@.subrange(0, start as int) =~= v@.take(start as int));
    let mut from: usize = end;
    match replacement {
        Some(decl) => {
            out.append(decl);
        },
        None => {
            // Also swallow the blank lines the declaration left behind.
            while from < v.len() && v[from] == '\n'
                invariant
                    end <= from <= v@.len(),
                    trim_breaks(v@.skip(end as int)) == trim_breaks(v@.skip(from as int)),
                decreases v@.len() - from,
            {
                assert(v@.skip(from as int).skip(1) =~= v@.skip(from + 1));
                from = from + 1;
            }
        },
    }
    out.append(&text::string_of(v, from, v.len()));
    assert(v@.subrange(from as int, v@.len() as int) =~= v@.skip(from as int));
    out
}

// --------------------------------------------------------------- description

/// The source with another text in the last pair of quotes before `k`; `None`
/// if no such pair is there. Quotes in the new text become apostrophes.
pub open spec fn described(s: Seq<char>, k: int, desc: Seq<char>) -> Option<Seq<char>> {
    let close = text::after_last(s, '"', k);
    let open = text::after_last(s, '"', close - 1);
    if close <= 0 || open <= 0 {
        None
    } else {
        Some(s.take(open) + text::unquoted(desc) + s.skip(close - 1))
    }
}

pub(crate) fn describe(v: &[char], k: usize, desc: &str) -> (r: Option<String>)
    requires
        k <= v@.len(),
    ensures
        text::opt_text(r) == described(v@, k as int, desc@),
{
    let close: usize = text::find_back(v, '"', k);
    if close == 0 {
        return None;
    }
    let open: usize = text::find_back(v, '"', close - 1);
    if open == 0 {
        return None;
    }
    let mut out = text::string_of(v, 0, open);
    assert(v@.subrange(0, open as int) =~= v@.take(open as int));
    out.append(&text::without_quotes(desc));
    out.append(&text::string_of(v, close - 1, v.len()));
    assert(v@.subrange(close - 1, v@.len() as int) =~= v@.skip(close - 1));
    Some(out)
}

/// The byte before a body: where its opening brace stands.
pub open spec fn brace_offset(span: Span) -> nat {
    if span.start > 0 {
        (span.start - 1) as nat
    } else {
        0
    }
}

/// The opening brace in front of the body is a character of the source.
pub open spec fn brace_fits(s: Seq<char>, span: Span) -> bool {
    text::on_boundary(s, brace_offset(span))
}

/// Whether the opening brace in front of the body is a character of the source.
pub fn has_brace(source: &str, span: Span) -> (r: bool)
    ensures
        r == brace_fits(source@, span),
{
    let v = text::chars_of(source);
    let offset: usize = if span.start > 0 {
        span.start - 1
    } else {
        0
    };
    text::char_index(&v, offset).is_some()
}

/// The source with another description for the bucket whose body has that span;
/// the source itself if the bucket has none.
pub open spec fn redescribed(s: Seq<char>, span: Span, desc: Seq<char>) -> Seq<char> {
    match described(s, text::fitting(s, brace_offset(span)) as int, desc) {
        Some(t) => t,
        None => s,
    }
}

/// Rewrite a bucket's `"description"` string in the source.
///
/// The description sits between the contract's `->` type and the body's `{`, so
/// it is found by scanning from the bucket's body span backwards to the string
/// literal that precedes it, never by searching for the old text, which could
/// match anywhere.
pub fn replace_description(source: &str, span: Span, desc: &str) -> (r: String)
    requires
        brace_fits(source@, span),
    ensures
        r@ == redescribed(source@, span, desc@),
{
    let v = text::chars_of(source);
    let offset: usize = if span.start > 0 {
        span.start - 1
    } else {
        0
    };
    match text::char_index(&v, offset) {
        Some(k) => match describe(&v, k, desc) {
            Some(t) => t,
            None => source.to_owned(),
        },
        None => source.to_owned(),
    }
}

// --------------------------------------------------------------------- tests

/// The annotation for one entry of a test list. An entry without a call is
/// passed over; one with neither a value nor an error to expect is refused.
pub open spec fn test_line(t: JsonView) -> Option<Result<Seq<char>, Seq<char>>> {
    let call = text::trim(json::get_text_or_empty(t, "call"@));
    let expects = text::trim(json::get_text_or_empty(t, "expects"@));
    if call.len() == 0 {
        None
    } else if json::is_true(t, "expect_error"@) {
        Some(Ok("@test_error "@ + call))
    } else if expects.len() == 0 {
        Some(Err("test `"@ + call + "` needs `expects`, or `expect_error: true`"@))
    } else {
        Some(Ok("@test "@ + call + " == "@ + expects))
    }
}

/// The annotations for a whole test list, or what is wrong with the first entry
/// that is refused.
pub open spec fn test_lines(tests: Seq<JsonView>) -> Result<Seq<Seq<char>>, Seq<char>>
    decreases tests.len(),
{
    if tests.len() == 0 {
        Ok(Seq::empty())
    } else {
        match test_lines(tests.drop_last()) {
            Err(e) => Err(e),
            Ok(lines) => match test_line(tests.last()) {
                None => Ok(lines),
                Some(Ok(l)) => Ok(lines.push(l)),
                Some(Err(e)) => Err(e),
            },
        }
    }
}

fn line_of(t: &Json) -> (r: Option<Result<String, String>>)
    ensures
        match r {
            Some(l) => test_line(t@) == Some(text::answer(l)),
            None => test_line(t@) is None,
        },
{
    let call = text::trimmed(&t.get_text_or_empty("call"));
    if call.as_str().is_empty() {
        return None;
    }
    if t.is_true("expect_error") {
        let mut s = "@test_error ".to_owned();
        s.append(&call);
        return Some(Ok(s));
    }
    let expects = text::trimmed(&t.get_text_or_empty("expects"));
    if expects.as_str().is_empty() {
        let mut s = "test `".to_owned();
        s.append(&call);
        s.append("` needs `expects`, or `expect_error: true`");
        return Some(Err(s));
    }
    let mut s = "@test ".to_owned();
    s.append(&call);
    s.append(" == ");
    s.append(&expects);
    Some(Ok(s))
}

proof fn lemma_first_refusal(tests: Seq<JsonView>, n: int)
    requires
        0 <= n <= tests.len(),
        test_lines(tests.take(n)) is Err,
    ensures
        test_lines(tests) == test_lines(tests.take(n)),
    decreases tests.len() - n,
{
    if n < tests.len() {
        assert(tests.take(n + 1).drop_last() =~= tests.take(n));
        lemma_first_refusal(tests, n + 1);
    } else {
        assert(tests.take(n) =~= tests);
    }
}

/// Render `@test` lines from a test list.
pub fn render_tests(tests: &Vec<Json>) -> (r: Result<Vec<String>, String>)
    ensures
        match r {
            Ok(lines) => test_lines(json::trees(tests@)) == Ok::<Seq<Seq<char>>, Seq<char>>(
                text::texts(lines@),
            ),
            Err(e) => test_lines(json::trees(tests@)) == Err::<Seq<Seq<char>>, Seq<char>>(e@),
        },
{
    let ghost all = json::trees(tests@);
    let mut lines: Vec<String> = Vec::new();
    let mut i: usize = 0;
    assert(all.take(0) =~= Seq::<JsonView>::empty());
    assert(text::texts(lines@) =~= Seq::<Seq<char>>::empty());
    while i < tests.len()
        invariant
            i <= tests@.len(),
            all == json::trees(tests@),
            test_lines(all.take(i as int)) == Ok::<Seq<Seq<char>>, Seq<char>>(
                text::texts(lines@),
            ),
        decreases tests@.len() - i,
    {
        assert(all.take(i + 1).drop_last() =~= all.take(i as int));
        assert(all.take(i + 1).last() == tests@[i as int]@);
        match line_of(&tests[i]) {
            Some(Ok(l)) => {
                let ghost before = text::texts(lines@);
                lines.push(l);
                assert(text::texts(lines@) =~= before.push(l@));
            },
            Some(Err(e)) => {
                proof {
                    lemma_first_refusal(all, i + 1);
                }
                return Err(e);
            },
            None => {},
        }
        i = i + 1;
    }
    assert(all.take(tests@.len() as int) =~= all);
    Ok(lines)
}

/// Lines, each with its line break.
pub open spec fn block(lines: Seq<Seq<char>>) -> Seq<char>
    decreases lines.len(),
{
    if lines.len() == 0 {
        Seq::empty()
    } else {
        block(lines.drop_last()) + lines.last() + "\n"@
    }
}

fn block_of(lines: &Vec<String>) -> (r: String)
    ensures
        r@ == block(text::texts(lines@)),
{
    let ghost all = text::texts(lines@);
    let mut s = String::new();
    let mut i: usize = 0;
    assert(all.take(0) =~= Seq::<Seq<char>>::empty());
    while i < lines.len()
        invariant
            i <= lines@.len(),
            all == text::texts(lines@),
            s@ == block(all.take(i as int)),
        decreases lines@.len() - i,
    {
        assert(all.take(i + 1).drop_last() =~= all.take(i as int));
        assert(all.take(i + 1).last() == lines@[i as int]@);
        s.append(&lines[i]);
        s.append("\n");
        i = i + 1;
    }
    assert(all.take(lines@.len() as int) =~= all);
    s
}

/// A declaration as it stands in the source.
pub open spec fn declaration(
    annotations: Seq<Seq<char>>,
    label: Seq<char>,
    params: Seq<char>,
    ret: Seq<char>,
    desc: Seq<char>,
    body: Seq<char>,
) -> Seq<char> {
    block(annotations) + label + "("@ + params + ") -> "@ + ret + " \""@ + text::unquoted(desc)
        + "\" {"@ + body + "\n}"@
}

pub(crate) fn declaration_of(
    annotations: &Vec<String>,
    label: &str,
    params: &str,
    ret: &str,
    desc: &str,
    body: &str,
) -> (r: String)
    ensures
        r@ == declaration(text::texts(annotations@), label@, params@, ret@, desc@, body@),
{
    let mut s = block_of(annotations);
    s.append(label);
    s.append("(");
    s.append(params);
    s.append(") -> ");
    s.append(ret);
    s.append(" \"");
    s.append(&text::without_quotes(desc));
    s.append("\" {");
    s.append(body);
    s.append("\n}");
    s
}

// ---------------------------------------------------------------------- laws

proof fn lemma_with_annotations_bounds(s: Seq<char>, start: int)
    requires
        start >= 0,
    ensures
        0 <= with_annotations(s, start) <= start,
    decreases start,
{
    if start > 1 {
        lemma_after_last_bounds(s, '\n', start - 1);
        let above = text::after_last(s, '\n', start - 1);
        if is_annotation(s.subrange(above, start - 1)) {
            lemma_with_annotations_bounds(s, above);
        }
    }
}

proof fn lemma_next_char_bounds(s: Seq<char>, c: char, from: int)
    requires
        0 <= from <= s.len(),
    ensures
        from <= text::next_char(s, c, from) <= s.len(),
    decreases s.len() - from,
{
    if from < s.len() && s[from] != c {
        lemma_next_char_bounds(s, c, from + 1);
    }
}

/// A declaration covers its body, and putting a declaration in place of itself
/// changes nothing.
pub proof fn law_splicing_is_local(s: Seq<char>, a: int, b: int)
    requires
        0 <= a <= b <= s.len(),
    ensures
        0 <= decl_start(s, a) <= a,
        b <= decl_end(s, b) <= s.len(),
        with_decl(s, a, b, s.subrange(decl_start(s, a), decl_end(s, b))) == s,
{
    lemma_after_last_bounds(s, '\n', a);
    lemma_with_annotations_bounds(s, text::after_last(s, '\n', a));
    lemma_next_char_bounds(s, '}', b);
    assert(with_decl(s, a, b, s.subrange(decl_start(s, a), decl_end(s, b))) =~= s);
}

proof fn lemma_after_last_found(s: Seq<char>, c: char, to: int)
    requires
        0 <= to <= s.len(),
    ensures
        0 <= text::after_last(s, c, to) <= to,
        text::after_last(s, c, to) > 0 ==> s[text::after_last(s, c, to) - 1] == c,
    decreases to,
{
    if to > 0 && s[to - 1] != c {
        lemma_after_last_found(s, c, to - 1);
    }
}

/// Rewriting a description touches only what stands between the two quotes that
/// precede the body: everything up to the opening quote and everything from the
/// closing quote on stays as it was, and the new text brings no quote of its
/// own.
pub proof fn law_description_change_is_local(s: Seq<char>, k: int, desc: Seq<char>)
    requires
        0 <= k <= s.len(),
        described(s, k, desc) is Some,
    ensures
        ({
            let close = text::after_last(s, '"', k) - 1;
            let open = text::after_last(s, '"', close) - 1;
            let t = described(s, k, desc)->0;
            &&& 0 <= open < close < k
            &&& s[open] == '"'
            &&& s[close] == '"'
            &&& t == s.take(open + 1) + text::unquoted(desc) + s.skip(close)
            &&& !text::unquoted(desc).contains('"')
        }),
{
    lemma_after_last_found(s, '"', k);
    let close = text::after_last(s, '"', k) - 1;
    lemma_after_last_found(s, '"', close);
}

proof fn lemma_trim_breaks(s: Seq<char>)
    ensures
        ({
            let k = s.len() - trim_breaks(s).len();
            &&& 0 <= k <= s.len()
            &&& trim_breaks(s) == s.skip(k)
            &&& forall|i: int| 0 <= i < k ==> s[i] == '\n'
            &&& k < s.len() ==> s[k] != '\n'
        }),
    decreases s.len(),
{
    if s.len() > 0 && s[0] == '\n' {
        let t = s.skip(1);
        lemma_trim_breaks(t);
        let k = s.len() - trim_breaks(s).len();
        assert(t.skip(k - 1) =~= s.skip(k));
        assert forall|i: int| 0 <= i < k implies s[i] == '\n' by {
            if i > 0 {
                assert(t[i - 1] == '\n');
            }
        }
        if k < s.len() {
            assert(s[k] == t[k - 1]);
        }
    } else {
        assert(s.skip(0) =~= s);
    }
}

/// Deleting a declaration keeps the text around it: what stands before it is
/// still there, and of what stands behind it nothing goes but the line breaks
/// that follow at once.
pub proof fn law_deleting_keeps_the_rest(s: Seq<char>, a: int, b: int)
    requires
        0 <= a <= b <= s.len(),
    ensures
        exists|k: int|
            {
                &&& decl_end(s, b) <= k <= s.len()
                &&& without_decl(s, a, b) == s.subrange(0, decl_start(s, a)) + #[trigger] s.subrange(
                    k,
                    s.len() as int,
                )
                &&& forall|i: int| decl_end(s, b) <= i < k ==> s[i] == '\n'
                &&& k < s.len() ==> s[k] != '\n'
            },
{
    law_splicing_is_local(s, a, b);
    let e = decl_end(s, b);
    let t = s.skip(e);
    lemma_trim_breaks(t);
    let k = e + (t.len() - trim_breaks(t).len());
    assert(without_decl(s, a, b) =~= s.subrange(0, decl_start(s, a)) + s.subrange(
        k,
        s.len() as int,
    ));
    assert forall|i: int| e <= i < k implies s[i] == '\n' by {
        assert(s[i] == t[i - e]);
    }
    if k < s.len() {
        assert(s[k] == t[k - e]);
    }
}

/// Every character before a deleted declaration stays where it was, and every
/// character behind it that is no line break is still there, as far from the end
/// as it was.
pub proof fn law_deleting_loses_no_text(s: Seq<char>, a: int, b: int, i: int)
    requires
        0 <= a <= b <= s.len(),
        0 <= i < s.len(),
    ensures
        i < decl_start(s, a) ==> i < without_decl(s, a, b).len() && without_decl(s, a, b)[i]
            == s[i],
        i >= decl_end(s, b) && s[i] != '\n' ==> ({
            let t = without_decl(s, a, b);
            let j = t.len() - (s.len() - i);
            decl_start(s, a) <= j && t[j] == s[i]
        }),
{
    law_splicing_is_local(s, a, b);
    law_deleting_keeps_the_rest(s, a, b);
    let k = choose|k: int|
        {
            &&& decl_end(s, b) <= k <= s.len()
            &&& without_decl(s, a, b) == s.subrange(0, decl_start(s, a)) + #[trigger] s.subrange(
                k,
                s.len() as int,
            )
            &&& forall|i: int| decl_end(s, b) <= i < k ==> s[i] == '\n'
            &&& k < s.len() ==> s[k] != '\n'
        };
    if i >= decl_end(s, b) && s[i] != '\n' {
        assert(i >= k);
    }
}

/// A declaration put in place of another stands between what was before the
/// other and what was behind it, and brings nothing else.
pub proof fn law_replacing_keeps_the_rest(s: Seq<char>, a: int, b: int, decl: Seq<char>)
    requires
        0 <= a <= b <= s.len(),
    ensures
        with_decl(s, a, b, decl) == s.subrange(0, decl_start(s, a)) + decl + s.subrange(
            decl_end(s, b),
            s.len() as int,
        ),
{
    law_splicing_is_local(s, a, b);
    assert(with_decl(s, a, b, decl) =~= s.subrange(0, decl_start(s, a)) + decl + s.subrange(
        decl_end(s, b),
        s.len() as int,
    ));
}

/// A declaration ends behind the first closing brace at or after the end of its
/// body, or at the end of its body where there is none.
pub proof fn law_declaration_ends_behind_its_brace(s: Seq<char>, b: int)
    requires
        0 <= b <= s.len(),
    ensures
        ({
            let e = decl_end(s, b);
            ||| b < e <= s.len() && s[e - 1] == '}' && forall|i: int| b <= i < e - 1 ==> s[i] != '}'
            ||| e == b && forall|i: int| b <= i < s.len() ==> s[i] != '}'
        }),
{
    text::law_next_char_is_the_first(s, '}', b);
}

/// A declaration starts at the start of a line. Between it and the line that
/// holds the signature stand annotation lines only, and the line above it, where
/// there is one that holds more than a line break, is no annotation.
pub proof fn law_declaration_starts_with_its_annotations(s: Seq<char>, a: int)
    requires
        0 <= a <= s.len(),
    ensures
        ({
            let start = decl_start(s, a);
            let line = text::after_last(s, '\n', a);
            &&& 0 <= start <= line <= a
            &&& start == 0 || s[start - 1] == '\n'
            &&& forall|i: int| line <= i < a ==> s[i] != '\n'
            &&& forall|i: int, j: int|
                start <= i <= j < line && (i == start || s[i - 1] == '\n') && s[j] == '\n' && !s.subrange(
                    i,
                    j,
                ).contains('\n') ==> is_annotation(#[trigger] s.subrange(i, j))
            &&& forall|i: int|
                0 <= i < start - 1 && (i == 0 || s[i - 1] == '\n') && !s.subrange(
                    i,
                    start - 1,
                ).contains('\n') ==> !is_annotation(#[trigger] s.subrange(i, start - 1))
        }),
{
    let line = text::after_last(s, '\n', a);
    text::law_after_last_is_the_last(s, '\n', a);
    lemma_annotations_above(s, line);
}

proof fn lemma_annotations_above(s: Seq<char>, line: int)
    requires
        0 <= line <= s.len(),
        line == 0 || s[line - 1] == '\n',
    ensures
        ({
            let start = with_annotations(s, line);
            &&& 0 <= start <= line
            &&& start == 0 || s[start - 1] == '\n'
            &&& forall|i: int, j: int|
                start <= i <= j < line && (i == start || s[i - 1] == '\n') && s[j] == '\n' && !s.subrange(
                    i,
                    j,
                ).contains('\n') ==> is_annotation(#[trigger] s.subrange(i, j))
            &&& forall|i: int|
                0 <= i < start - 1 && (i == 0 || s[i - 1] == '\n') && !s.subrange(
                    i,
                    start - 1,
                ).contains('\n') ==> !is_annotation(#[trigger] s.subrange(i, start - 1))
        }),
    decreases line,
{
    let start = with_annotations(s, line);
    if line > 1 {
        let above = text::after_last(s, '\n', line - 1);
        text::law_after_last_is_the_last(s, '\n', line - 1);
        if is_annotation(s.subrange(above, line - 1)) {
            lemma_annotations_above(s, above);
            assert forall|i: int, j: int|
                start <= i <= j < line && (i == start || s[i - 1] == '\n') && s[j] == '\n' && !s.subrange(
                    i,
                    j,
                ).contains('\n') implies is_annotation(#[trigger] s.subrange(i, j)) by {
                if i < above {
                    if j >= above {
                        assert(s.subrange(i, j)[above - 1 - i] == '\n');
                    }
                } else {
                    if i > above {
                        assert(s[i - 1] == '\n');
                    }
                    assert(i == above);
                    assert(j == line - 1);
                }
            }
        } else {
            assert forall|i: int|
                0 <= i < start - 1 && (i == 0 || s[i - 1] == '\n') && !s.subrange(
                    i,
                    start - 1,
                ).contains('\n') implies !is_annotation(#[trigger] s.subrange(i, start - 1)) by {
                if i < above {
                    assert(s.subrange(i, start - 1)[above - 1 - i] == '\n');
                }
                assert(i == above);
            }
        }
    }
}

/// An annotation is a line that starts, white space aside, with `@test` or with
/// `@entry`; the latter kind makes a bucket an entry point.
pub proof fn law_annotations_are_tests_and_entries(line: Seq<char>, rest: Seq<char>)
    ensures
        text::trim(line) == "@test"@ + rest ==> is_annotation(line),
        text::trim(line) == "@entry"@ + rest ==> is_annotation(line) && is_entry(line),
        text::trim(line).len() == 0 || text::trim(line)[0] != '@' ==> !is_annotation(line),
{
    reveal_strlit("@test");
    reveal_strlit("@entry");
    let t = text::trim(line);
    if t == "@test"@ + rest {
        text::law_parts_of_a_text(t, rest, "@test"@);
    }
    if t == "@entry"@ + rest {
        text::law_parts_of_a_text(t, rest, "@entry"@);
    }
    if text::starts_with(t, "@test"@) {
        assert(t.subrange(0, 5)[0] == t[0]);
    }
    if text::starts_with(t, "@entry"@) {
        assert(t.subrange(0, 6)[0] == t[0]);
    }
}

/// The annotations of a declaration are the lines that it starts with, up to the
/// first one that is none.
pub proof fn law_leading_lines_are_annotations(a: Seq<Seq<char>>, b: Seq<Seq<char>>)
    requires
        forall|i: int| 0 <= i < a.len() ==> is_annotation(#[trigger] a[i]),
        b.len() == 0 || !is_annotation(b[0]),
    ensures
        leading(a + b) == a,
    decreases a.len(),
{
    if a.len() == 0 {
        assert(a + b =~= b);
        assert(leading(a + b) =~= a);
    } else {
        let t = a.skip(1);
        assert forall|i: int| 0 <= i < t.len() implies is_annotation(#[trigger] t[i]) by {
            assert(t[i] == a[i + 1]);
        }
        law_leading_lines_are_annotations(t, b);
        assert((a + b).skip(1) =~= t + b);
        assert((a + b)[0] == a[0]);
        assert(leading(a + b) =~= a);
    }
}

/// The bytes of a body give back the body: a span from the length of what is
/// before it to the length of it and what is before fits, and covers it exactly.
pub proof fn law_span_covers_its_body(
    before: Seq<char>,
    body: Seq<char>,
    after: Seq<char>,
    span: Span,
)
    requires
        span.start == text::size(before),
        span.end == text::size(before) + text::size(body),
    ensures
        span_fits(before + body + after, span),
        first_char(before + body + after, span) == before.len(),
        end_char(before + body + after, span) == before.len() + body.len(),
        body_text(before + body + after, span) == body,
{
    let s = before + body + after;
    let i = before.len() as int;
    let j = (before.len() + body.len()) as int;
    assert(s.take(i) =~= before);
    assert(s.take(j) =~= before + body);
    text::lemma_size_add(before, body);
    text::lemma_boundary(s, i);
    text::lemma_boundary(s, j);
    assert(s.subrange(i, j) =~= body);
}

/// A description is rewritten between the last two quotes before the body; where
/// there are no two, there is none to rewrite.
pub proof fn law_description_stands_between_the_last_quotes(
    a: Seq<char>,
    old_desc: Seq<char>,
    b: Seq<char>,
    rest: Seq<char>,
    desc: Seq<char>,
)
    requires
        !old_desc.contains('"'),
        !b.contains('"'),
    ensures
        ({
            let s = a + seq!['"'] + old_desc + seq!['"'] + b + rest;
            let k = a.len() + old_desc.len() + b.len() + 2;
            described(s, k as int, desc) == Some(
                a + seq!['"'] + text::unquoted(desc) + seq!['"'] + b + rest,
            )
        }),
        described(b + rest, b.len() as int, desc) is None,
        described(old_desc + seq!['"'] + b + rest, (old_desc.len() + 1 + b.len()) as int, desc)
            is None,
{
    let s = a + seq!['"'] + old_desc + seq!['"'] + b + rest;
    let open = a.len() as int;
    let close = (a.len() + old_desc.len() + 1) as int;
    let k = close + 1 + b.len();
    assert(s[open] == '"');
    assert(s[close] == '"');
    assert forall|i: int| close < i < k implies s[i] != '"' by {
        assert(s[i] == b[i - close - 1]);
        assert(b.contains(b[i - close - 1]));
    }
    assert forall|i: int| open < i < close implies s[i] != '"' by {
        assert(s[i] == old_desc[i - open - 1]);
        assert(old_desc.contains(old_desc[i - open - 1]));
    }
    text::law_after_last_is_the_last(s, '"', k);
    text::law_after_last_is_the_last(s, '"', close);
    let c = text::after_last(s, '"', k);
    assert(c == close + 1);
    assert(text::after_last(s, '"', c - 1) == open + 1);
    assert(described(s, k, desc)->0 =~= a + seq!['"'] + text::unquoted(desc) + seq!['"'] + b + rest);
    let t = b + rest;
    assert forall|i: int| 0 <= i < b.len() implies t[i] != '"' by {
        assert(t[i] == b[i]);
        assert(b.contains(b[i]));
    }
    text::law_after_last_is_the_last(t, '"', b.len() as int);
    let u = old_desc + seq!['"'] + b + rest;
    let q = old_desc.len() as int;
    assert(u[q] == '"');
    assert forall|i: int| q < i < q + 1 + b.len() implies u[i] != '"' by {
        assert(u[i] == b[i - q - 1]);
        assert(b.contains(b[i - q - 1]));
    }
    assert forall|i: int| 0 <= i < q implies u[i] != '"' by {
        assert(u[i] == old_desc[i]);
        assert(old_desc.contains(old_desc[i]));
    }
    text::law_after_last_is_the_last(u, '"', q + 1 + b.len());
    text::law_after_last_is_the_last(u, '"', q);
}

/// What an entry of a test list becomes: a line that expects the value that was
/// given, a line that expects an error where one is asked for, nothing where
/// there is no call, and a refusal where there is nothing to expect.
pub proof fn law_tests_say_what_to_expect(t: JsonView, call: Seq<char>, value: Seq<char>)
    requires
        json::get(t, "call"@) == Some(JsonView::Text(call)),
    ensures
        ({
            let given = json::get(t, "expects"@);
            let error = json::get(t, "expect_error"@) == Some(JsonView::Bool(true));
            &&& text::trim(call).len() == 0 ==> test_line(t) is None
            &&& text::trim(call).len() > 0 && error ==> test_line(t) == Some(
                Ok::<Seq<char>, Seq<char>>("@test_error "@ + text::trim(call)),
            )
            &&& text::trim(call).len() > 0 && !error && given == Some(JsonView::Text(value))
                && text::trim(value).len() > 0 ==> test_line(t) == Some(
                Ok::<Seq<char>, Seq<char>>(
                    "@test "@ + text::trim(call) + " == "@ + text::trim(value),
                ),
            )
            &&& text::trim(call).len() > 0 && !error && (!(given matches Some(JsonView::Text(_)))
                || given == Some(JsonView::Text(value)) && text::trim(value).len() == 0) ==> (
            test_line(t) matches Some(Err(e)) && text::contains_text(e, text::trim(call)))
        }),
{
    let c = text::trim(call);
    text::law_parts_of_a_text(
        "test `"@,
        "` needs `expects`, or `expect_error: true`"@,
        c,
    );
    assert(text::trim(Seq::<char>::empty()) =~= Seq::<char>::empty());
}

/// A test list is rendered entry by entry, in order, and refused for the first
/// entry that is refused.
pub proof fn law_tests_are_rendered_in_order(a: Seq<JsonView>, b: Seq<JsonView>)
    ensures
        test_lines(Seq::empty()) == Ok::<Seq<Seq<char>>, Seq<char>>(Seq::empty()),
        a.len() == 1 ==> test_lines(a) == match test_line(a[0]) {
            None => Ok::<Seq<Seq<char>>, Seq<char>>(Seq::empty()),
            Some(Ok(l)) => Ok(seq![l]),
            Some(Err(e)) => Err(e),
        },
        test_lines(a) is Err ==> test_lines(a + b) == test_lines(a),
        test_lines(a) is Ok && test_lines(b) is Err ==> test_lines(a + b) == test_lines(b),
        test_lines(a) is Ok && test_lines(b) is Ok ==> test_lines(a + b) == Ok::<
            Seq<Seq<char>>,
            Seq<char>,
        >(test_lines(a)->Ok_0 + test_lines(b)->Ok_0),
    decreases b.len(),
{
    if a.len() == 1 {
        assert(a.drop_last() =~= Seq::<JsonView>::empty());
        assert(test_lines(a.drop_last()) == Ok::<Seq<Seq<char>>, Seq<char>>(Seq::empty()));
        if let Some(Ok(l)) = test_line(a[0]) {
            assert(Seq::<Seq<char>>::empty().push(l) =~= seq![l]);
        }
    }
    if b.len() == 0 {
        assert(a + b =~= a);
        assert(test_lines(b) == Ok::<Seq<Seq<char>>, Seq<char>>(Seq::empty()));
        if test_lines(a) is Ok {
            assert(test_lines(a)->Ok_0 + test_lines(b)->Ok_0 =~= test_lines(a)->Ok_0);
        }
    } else {
        law_tests_are_rendered_in_order(a, b.drop_last());
        assert((a + b).drop_last() =~= a + b.drop_last());
        assert((a + b).last() == b.last());
        if test_lines(a) is Ok && test_lines(b.drop_last()) is Ok {
            let x = test_lines(a)->Ok_0;
            let y = test_lines(b.drop_last())->Ok_0;
            if let Some(Ok(l)) = test_line(b.last()) {
                assert((x + y).push(l) =~= x + y.push(l));
            }
        }
    }
}

/// A block of lines is its lines one after another, each with its line break.
pub proof fn law_blocks_hold_their_lines(a: Seq<Seq<char>>, b: Seq<Seq<char>>)
    ensures
        block(Seq::empty()) == Seq::<char>::empty(),
        a.len() == 1 ==> block(a) == a[0].push('\n'),
        block(a + b) == block(a) + block(b),
    decreases b.len(),
{
    reveal_strlit("\n");
    if a.len() == 1 {
        assert(a.drop_last() =~= Seq::<Seq<char>>::empty());
        assert(block(a.drop_last()) =~= Seq::<char>::empty());
        assert(block(a) =~= a[0].push('\n'));
    }
    if b.len() == 0 {
        assert(a + b =~= a);
        assert(block(a) + block(b) =~= block(a));
    } else {
        law_blocks_hold_their_lines(a, b.drop_last());
        assert((a + b).drop_last() =~= a + b.drop_last());
        assert((a + b).last() == b.last());
        assert(block(a + b) =~= block(a) + block(b));
    }
}

/// Rewriting the description of a bucket by the span of its body: the text
/// between the last two quotes before the opening brace is the new description,
/// with its quotes turned into apostrophes, and all else stays.
pub proof fn law_new_description_lands_before_the_body(
    a: Seq<char>,
    old_desc: Seq<char>,
    b: Seq<char>,
    rest: Seq<char>,
    span: Span,
    desc: Seq<char>,
)
    requires
        !old_desc.contains('"'),
        !b.contains('"'),
        span.start == text::size(a + seq!['"'] + old_desc + seq!['"'] + b) + 1,
    ensures
        ({
            let s = a + seq!['"'] + old_desc + seq!['"'] + b + rest;
            &&& brace_fits(s, span)
            &&& redescribed(s, span, desc) == a + seq!['"'] + text::unquoted(desc) + seq!['"'] + b
                + rest
        }),
{
    let head = a + seq!['"'] + old_desc + seq!['"'] + b;
    let s = head + rest;
    assert(s.take(head.len() as int) =~= head);
    text::lemma_boundary(s, head.len() as int);
    law_description_stands_between_the_last_quotes(a, old_desc, b, rest, desc);
}

/// A line of `r`, without the line break that ends it.
spec fn is_line_of(r: Seq<char>, line: Seq<char>) -> bool {
    exists|i: int, j: int|
        {
            &&& 0 <= i <= j < r.len()
            &&& i == 0 || r[i - 1] == '\n'
            &&& r[j] == '\n'
            &&& line == #[trigger] r.subrange(i, j)
            &&& !line.contains('\n')
        }
}

proof fn lemma_line_of_rest(r: Seq<char>, n: int, line: Seq<char>)
    requires
        0 <= n < r.len(),
        r[n] == '\n',
        is_line_of(r.skip(n + 1), line),
    ensures
        is_line_of(r, line),
{
    let rest = r.skip(n + 1);
    let (i, j) = choose|i: int, j: int|
        {
            &&& 0 <= i <= j < rest.len()
            &&& i == 0 || rest[i - 1] == '\n'
            &&& rest[j] == '\n'
            &&& line == #[trigger] rest.subrange(i, j)
            &&& !line.contains('\n')
        };
    let x = i + n + 1;
    let y = j + n + 1;
    assert(r.subrange(x, y) =~= rest.subrange(i, j));
    assert(r[y] == rest[j]);
    if i > 0 {
        assert(r[x - 1] == rest[i - 1]);
    }
}

proof fn lemma_annotation_lines(r: Seq<char>, t: Seq<char>) -> (lines: Seq<Seq<char>>)
    requires
        r.len() == 0 || r.last() == '\n',
        !r.contains('\r'),
    ensures
        text::lines(r + t) == lines + text::lines(t),
        block(lines) == r,
        forall|k: int| 0 <= k < lines.len() ==> is_line_of(r, #[trigger] lines[k]),
    decreases r.len(),
{
    if r.len() == 0 {
        let none = Seq::<Seq<char>>::empty();
        assert(r + t =~= t);
        assert(none + text::lines(t) =~= text::lines(t));
        assert(block(none) =~= r);
        none
    } else {
        let n = lemma_first_break(r);
        let first = r.subrange(0, n);
        let more = lemma_annotation_lines(r.skip(n + 1), t);
        lemma_lines_of_both(r, n, t, more);
        lemma_block_of_both(r, n, more);
        lemma_each_is_a_line(r, n, more);
        seq![first] + more
    }
}

proof fn lemma_lines_of_both(r: Seq<char>, n: int, t: Seq<char>, more: Seq<Seq<char>>)
    requires
        0 <= n < r.len(),
        r[n] == '\n',
        forall|i: int| 0 <= i < n ==> #[trigger] r.subrange(0, n)[i] != '\n',
        n == 0 || r.subrange(0, n).last() != '\r',
        text::lines(r.skip(n + 1) + t) == more + text::lines(t),
    ensures
        text::lines(r + t) == seq![r.subrange(0, n)] + more + text::lines(t),
{
    let first = r.subrange(0, n);
    let rest = r.skip(n + 1) + t;
    assert(r + t =~= first.push('\n') + rest);
    text::law_lines_end_at_newlines(first, rest);
    assert(seq![first] + (more + text::lines(t)) =~= seq![first] + more + text::lines(t));
}

proof fn lemma_block_of_both(r: Seq<char>, n: int, more: Seq<Seq<char>>)
    requires
        0 <= n < r.len(),
        r[n] == '\n',
        block(more) == r.skip(n + 1),
    ensures
        block(seq![r.subrange(0, n)] + more) == r,
{
    let first = r.subrange(0, n);
    law_blocks_hold_their_lines(seq![first], more);
    assert(first.push('\n') + r.skip(n + 1) =~= r);
}

proof fn lemma_each_is_a_line(r: Seq<char>, n: int, more: Seq<Seq<char>>)
    requires
        0 <= n < r.len(),
        r[n] == '\n',
        is_line_of(r, r.subrange(0, n)),
        forall|k: int| 0 <= k < more.len() ==> is_line_of(r.skip(n + 1), #[trigger] more[k]),
    ensures
        ({
            let lines = seq![r.subrange(0, n)] + more;
            forall|k: int| 0 <= k < lines.len() ==> is_line_of(r, #[trigger] lines[k])
        }),
{
    let lines = seq![r.subrange(0, n)] + more;
    assert forall|k: int| 0 <= k < lines.len() implies is_line_of(r, #[trigger] lines[k]) by {
        if k > 0 {
            assert(lines[k] == more[k - 1]);
            lemma_line_of_rest(r, n, more[k - 1]);
        }
    }
}

/// Where the first line of `r` ends.
proof fn lemma_first_break(r: Seq<char>) -> (n: int)
    requires
        r.len() > 0,
        r.last() == '\n',
        !r.contains('\r'),
    ensures
        0 <= n < r.len(),
        r[n] == '\n',
        forall|i: int| 0 <= i < n ==> #[trigger] r.subrange(0, n)[i] != '\n',
        n == 0 || r.subrange(0, n).last() != '\r',
        is_line_of(r, r.subrange(0, n)),
        !r.skip(n + 1).contains('\r'),
        r.skip(n + 1).len() == 0 || r.skip(n + 1).last() == '\n',
{
    let n = text::next_char(r, '\n', 0);
    text::law_next_char_is_the_first(r, '\n', 0);
    assert(r[r.len() - 1] == '\n');
    let first = r.subrange(0, n);
    let rest = r.skip(n + 1);
    if n > 0 {
        assert(first.last() == r[n - 1]);
        assert(r.contains(r[n - 1]));
    }
    if rest.contains('\r') {
        let i = choose|i: int| 0 <= i < rest.len() && rest[i] == '\r';
        assert(r[n + 1 + i] == '\r');
    }
    assert(!first.contains('\n'));
    n
}

/// The annotations of a declaration are kept letter for letter: written out
/// again, they are the text between the start of the declaration and the line
/// that holds its signature. A carriage return would not survive.
pub proof fn law_annotations_are_kept_as_written(s: Seq<char>, a: int)
    requires
        0 <= a <= s.len(),
        !s.subrange(decl_start(s, a), text::after_last(s, '\n', a)).contains('\r'),
        ({
            let below = text::lines(s.skip(text::after_last(s, '\n', a)));
            below.len() == 0 || !is_annotation(below[0])
        }),
    ensures
        block(annotations(s, a)) == s.subrange(decl_start(s, a), text::after_last(s, '\n', a)),
{
    let start = decl_start(s, a);
    let line = text::after_last(s, '\n', a);
    law_declaration_starts_with_its_annotations(s, a);
    text::law_after_last_is_the_last(s, '\n', a);
    let r = s.subrange(start, line);
    let t = s.skip(line);
    assert(s.skip(start) =~= r + t);
    if r.len() > 0 {
        assert(r.last() == s[line - 1]);
    }
    let lines = lemma_annotation_lines(r, t);
    assert forall|k: int| 0 <= k < lines.len() implies is_annotation(#[trigger] lines[k]) by {
        let l = lines[k];
        assert(is_line_of(r, l));
        let (i, j) = choose|i: int, j: int|
            {
                &&& 0 <= i <= j < r.len()
                &&& i == 0 || r[i - 1] == '\n'
                &&& r[j] == '\n'
                &&& l == #[trigger] r.subrange(i, j)
                &&& !l.contains('\n')
            };
        let x = start + i;
        let y = start + j;
        assert(r.subrange(i, j) =~= s.subrange(x, y));
        assert(s[y] == r[j]);
        if i > 0 {
            assert(s[x - 1] == r[i - 1]);
        }
        assert(is_annotation(s.subrange(x, y)));
    }
    law_leading_lines_are_annotations(lines, text::lines(t));
}

/// Which lines are annotations, exactly: those that begin, white space aside,
/// with one of the two marks.
pub proof fn law_annotation_marks(line: Seq<char>, lines: Seq<Seq<char>>)
    ensures
        is_annotation(line) <==> "@test"@.is_prefix_of(text::trim(line)) || "@entry"@.is_prefix_of(
            text::trim(line),
        ),
        is_entry(line) <==> "@entry"@.is_prefix_of(text::trim(line)),
        !has_entry(Seq::empty()),
        has_entry(lines.push(line)) <==> has_entry(lines) || is_entry(line),
{
    let all = lines.push(line);
    if has_entry(lines) {
        let i = choose|i: int| 0 <= i < lines.len() && is_entry(#[trigger] lines[i]);
        assert(is_entry(all[i]));
    }
    assert(all[lines.len() as int] == line);
    if has_entry(all) {
        let i = choose|i: int| 0 <= i < all.len() && is_entry(#[trigger] all[i]);
        if i < lines.len() {
            assert(is_entry(lines[i]));
        }
    }
}

/// A declaration as it is written out: what is put between two fixed marks is
/// found between them.
pub proof fn law_declaration_is_written_in_order(
    lines: Seq<Seq<char>>,
    label: Seq<char>,
    params: Seq<char>,
    ret: Seq<char>,
    desc: Seq<char>,
    body: Seq<char>,
)
    ensures
        declaration(lines, label, params, ret, desc, body) == block(lines) + (label.push('(')
            + params + seq![')', ' ', '-', '>', ' '] + ret + seq![' ', '"'] + text::unquoted(desc)
            + seq!['"', ' ', '{'] + body + seq!['\n', '}']),
{
    reveal_strlit("(");
    reveal_strlit(") -> ");
    reveal_strlit(" \"");
    reveal_strlit("\" {");
    reveal_strlit("\n}");
    assert("("@ =~= seq!['(']);
    assert(") -> "@ =~= seq![')', ' ', '-', '>', ' ']);
    assert(" \""@ =~= seq![' ', '"']);
    assert("\" {"@ =~= seq!['"', ' ', '{']);
    assert("\n}"@ =~= seq!['\n', '}']);
    assert(label + "("@ =~= label.push('('));
    let d = text::unquoted(desc);
    assert(block(lines) + label + "("@ + params + ") -> "@ + ret + " \""@ + d + "\" {"@ + body
        + "\n}"@ =~= block(lines) + (label + "("@ + params + ") -> "@ + ret + " \""@ + d + "\" {"@
        + body + "\n}"@));
}

/// What is said of a test with nothing to expect, word for word.
pub proof fn law_tests_without_expectation_are_refused(t: JsonView, call: Seq<char>)
    requires
        json::get(t, "call"@) == Some(JsonView::Text(call)),
        text::trim(call).len() > 0,
        json::get(t, "expects"@) is None,
        json::get(t, "expect_error"@) is None,
    ensures
        test_line(t) == Some(
            Err::<Seq<char>, Seq<char>>(
                "test `"@ + text::trim(call) + "` needs `expects`, or `expect_error: true`"@,
            ),
        ),
{
    assert(text::trim(Seq::<char>::empty()) =~= Seq::<char>::empty());
}

} // verus!
