//! Text: what the rest of the crate says about strings, and the exact
//! operations it builds them with.
//!
//! Contracts speak of a string as the sequence of its characters. Offsets that
//! come from a language front end are byte offsets, so the module also says how
//! many bytes a character takes and which character a byte offset points at.

use vstd::prelude::*;
use vstd::utf8::*;

verus! {

// ------------------------------------------------------------ std functions

/// `String::push`: the character is added at the end.
pub assume_specification[ String::push ](s: &mut String, c: char)
    ensures
        final(s)@ == old(s)@.push(c),
;

/// Whether `char::is_alphanumeric` holds of a character.
pub uninterp spec fn alphanumeric(c: char) -> bool;

/// Letters and digits of the ASCII range.
pub open spec fn ascii_alphanumeric(c: char) -> bool {
    ||| '0' <= c <= '9'
    ||| 'A' <= c <= 'Z'
    ||| 'a' <= c <= 'z'
}

/// `char::is_alphanumeric`: a property of the character alone. In the ASCII
/// range it holds of the letters and the digits.
pub assume_specification[ char::is_alphanumeric ](c: char) -> (r: bool)
    ensures
        r == alphanumeric(c),
        c <= '\u{7f}' ==> r == ascii_alphanumeric(c),
;

/// What `str::to_lowercase` makes of a text.
pub uninterp spec fn lowered(s: Seq<char>) -> Seq<char>;

/// The lower-case form of an ASCII character.
pub open spec fn ascii_lower(c: char) -> char {
    if 'A' <= c <= 'Z' {
        ((c as u32) + 32) as char
    } else {
        c
    }
}

/// `str::to_lowercase`: a function of the text. An ASCII text is lowered
/// character by character.
pub assume_specification[ str::to_lowercase ](s: &str) -> (r: String)
    ensures
        r@ == lowered(s@),
        is_ascii_chars(s@) ==> r@ == s@.map_values(|c: char| ascii_lower(c)),
;

/// What the `{:?}` format writes for a text: the text in double quotes, with
/// escapes.
pub uninterp spec fn quoted(s: Seq<char>) -> Seq<char>;

/// The `{:?}` format of a string slice: a function of the text.
#[verifier::external_body]
pub(crate) fn debug_text(s: &str) -> (r: String)
    ensures
        r@ == quoted(s@),
{
    format!("{s:?}")
}

/// The text that `String::from_utf8_lossy` makes of some bytes.
pub uninterp spec fn lossy(bytes: Seq<u8>) -> Seq<char>;

/// `String::from_utf8_lossy`, as an owned string: a function of the bytes, and
/// their decoding where they are valid UTF-8.
#[verifier::external_body]
pub(crate) fn text_of_bytes(bytes: &[u8]) -> (r: String)
    ensures
        r@ == lossy(bytes@),
        valid_utf8(bytes@) ==> r@ == decode_utf8(bytes@),
{
    String::from_utf8_lossy(bytes).to_string()
}

// ---------------------------------------------------------------- elementary

/// The characters of a string, one by one.
pub fn chars_of(s: &str) -> (r: Vec<char>)
    ensures
        r@ == s@,
{
    let mut v: Vec<char> = Vec::new();
    for c in it: s.chars()
        invariant
            it.seq() == s@,
            v@ == s@.take(it.index() as int),
    {
        v.push(c);
    }
    v
}

/// The string made of the characters `v[from..to]`.
pub fn string_of(v: &[char], from: usize, to: usize) -> (r: String)
    requires
        from <= to <= v@.len(),
    ensures
        r@ == v@.subrange(from as int, to as int),
{
    let mut s = String::new();
    let mut i: usize = from;
    while i < to
        invariant
            from <= i <= to <= v@.len(),
            s@ == v@.subrange(from as int, i as int),
        decreases to - i,
    {
        s.push(v[i]);
        i = i + 1;
    }
    s
}

/// Whether two texts are equal.
pub fn same(a: &str, b: &str) -> (r: bool)
    ensures
        r == (a@ == b@),
{
    a.to_owned() == b.to_owned()
}

/// The texts held by a list of strings.
pub open spec fn texts(v: Seq<String>) -> Seq<Seq<char>> {
    v.map_values(|s: String| s@)
}

/// The text held by an optional string.
pub open spec fn opt_text(o: Option<String>) -> Option<Seq<char>> {
    match o {
        Some(s) => Some(s@),
        None => None,
    }
}

/// What a check that may fail with a message came to.
pub open spec fn verdict(r: Result<(), String>) -> Result<(), Seq<char>> {
    match r {
        Ok(_) => Ok(()),
        Err(e) => Err(e@),
    }
}

/// The text, or the message of a failure.
pub open spec fn answer(r: Result<String, String>) -> Result<Seq<char>, Seq<char>> {
    match r {
        Ok(s) => Ok(s@),
        Err(e) => Err(e@),
    }
}

/// Whether one of the strings holds the text `t`.
pub fn has_text(v: &Vec<String>, t: &str) -> (r: bool)
    ensures
        r == texts(v@).contains(t@),
{
    let mut i: usize = 0;
    while i < v.len()
        invariant
            i <= v@.len(),
            forall|j: int| 0 <= j < i ==> v@[j]@ != t@,
        decreases v@.len() - i,
    {
        if same(&v[i], t) {
            assert(texts(v@)[i as int] == t@);
            return true;
        }
        i = i + 1;
    }
    assert(!texts(v@).contains(t@));
    false
}

/// A list of strings that holds the same texts.
pub fn copy_texts(v: &[String]) -> (r: Vec<String>)
    ensures
        texts(r@) == texts(v@),
{
    let mut out: Vec<String> = Vec::new();
    let mut i: usize = 0;
    while i < v.len()
        invariant
            i <= v@.len(),
            texts(out@) == texts(v@).take(i as int),
        decreases v@.len() - i,
    {
        let ghost before = out@;
        out.push(v[i].clone());
        assert(texts(out@) =~= texts(before).push(v@[i as int]@));
        assert(texts(v@).take(i + 1) =~= texts(v@).take(i as int).push(v@[i as int]@));
        i = i + 1;
    }
    assert(texts(v@).take(v@.len() as int) =~= texts(v@));
    out
}

/// An optional string that holds the same text.
pub fn copy_opt(o: &Option<String>) -> (r: Option<String>)
    ensures
        opt_text(r) == opt_text(*o),
{
    match o {
        Some(s) => Some(s.clone()),
        None => None,
    }
}

/// The text, or another one in its absence.
pub open spec fn or_else(o: Option<Seq<char>>, other: Seq<char>) -> Seq<char> {
    match o {
        Some(s) => s,
        None => other,
    }
}

pub fn text_or(o: &Option<String>, other: &str) -> (r: String)
    ensures
        r@ == or_else(opt_text(*o), other@),
{
    match o {
        Some(s) => s.clone(),
        None => other.to_owned(),
    }
}

// -------------------------------------------------------------------- search

/// `pat` stands in `s` at character `i`.
pub open spec fn occurs_at(s: Seq<char>, pat: Seq<char>, i: int) -> bool {
    &&& 0 <= i
    &&& i + pat.len() <= s.len()
    &&& s.subrange(i, i + pat.len()) == pat
}

/// `pat` stands somewhere in `s`.
pub open spec fn contains_text(s: Seq<char>, pat: Seq<char>) -> bool {
    exists|i: int| #[trigger] occurs_at(s, pat, i)
}

/// `s` begins with `pat`.
pub open spec fn starts_with(s: Seq<char>, pat: Seq<char>) -> bool {
    occurs_at(s, pat, 0)
}

/// `s` ends with `pat`.
pub open spec fn ends_with(s: Seq<char>, pat: Seq<char>) -> bool {
    occurs_at(s, pat, s.len() - pat.len())
}

/// Whether `pat` stands in `s` at character `i`.
pub fn match_at(s: &[char], pat: &[char], i: usize) -> (r: bool)
    requires
        i <= s@.len(),
    ensures
        r == occurs_at(s@, pat@, i as int),
{
    if pat.len() > s.len() - i {
        return false;
    }
    let n: usize = s.len();
    let mut j: usize = 0;
    while j < pat.len()
        invariant
            n == s@.len(),
            i + pat@.len() <= n,
            j <= pat@.len(),
            forall|k: int| 0 <= k < j ==> s@[i + k] == pat@[k],
        decreases pat@.len() - j,
    {
        if s[i + j] != pat[j] {
            assert(s@.subrange(i as int, i + pat@.len())[j as int] == s@[i + j]);
            return false;
        }
        j = j + 1;
    }
    assert(s@.subrange(i as int, i + pat@.len()) =~= pat@);
    true
}

/// Whether `pat` stands somewhere in `s`.
pub fn has_part(s: &str, pat: &str) -> (r: bool)
    ensures
        r == contains_text(s@, pat@),
{
    let v = chars_of(s);
    let p = chars_of(pat);
    let mut i: usize = 0;
    while i <= v.len()
        invariant
            v@ == s@,
            p@ == pat@,
            i <= v@.len() + 1,
            forall|k: int| 0 <= k < i ==> !occurs_at(s@, pat@, k),
        decreases v@.len() + 1 - i,
    {
        if match_at(v.as_slice(), p.as_slice(), i) {
            return true;
        }
        if i == v.len() {
            return false;
        }
        i = i + 1;
    }
    false
}

/// Whether the character `c` stands somewhere in `s`.
pub fn has_char(s: &str, c: char) -> (r: bool)
    ensures
        r == s@.contains(c),
{
    let v = chars_of(s);
    let mut i: usize = 0;
    while i < v.len()
        invariant
            v@ == s@,
            i <= v@.len(),
            forall|k: int| 0 <= k < i ==> v@[k] != c,
        decreases v@.len() - i,
    {
        if v[i] == c {
            return true;
        }
        i = i + 1;
    }
    false
}

/// Whether `s` begins with `pat`.
pub fn begins(s: &str, pat: &str) -> (r: bool)
    ensures
        r == starts_with(s@, pat@),
{
    let v = chars_of(s);
    let p = chars_of(pat);
    match_at(v.as_slice(), p.as_slice(), 0)
}

/// Whether `s` ends with `pat`.
pub fn finishes(s: &str, pat: &str) -> (r: bool)
    ensures
        r == ends_with(s@, pat@),
{
    let v = chars_of(s);
    let p = chars_of(pat);
    if p.len() > v.len() {
        return false;
    }
    match_at(v.as_slice(), p.as_slice(), v.len() - p.len())
}

/// The first character `c` at or after `from`; the length of `s` if there is
/// none.
pub open spec fn next_char(s: Seq<char>, c: char, from: int) -> int
    decreases s.len() - from,
{
    if from >= s.len() || s[from] == c {
        from
    } else {
        next_char(s, c, from + 1)
    }
}

/// The position after the last character `c` before `to`; 0 if there is none.
pub open spec fn after_last(s: Seq<char>, c: char, to: int) -> int
    decreases to,
{
    if to <= 0 || s[to - 1] == c {
        to
    } else {
        after_last(s, c, to - 1)
    }
}

pub fn find_from(v: &[char], c: char, from: usize) -> (r: usize)
    requires
        from <= v@.len(),
    ensures
        r == next_char(v@, c, from as int),
        from <= r <= v@.len(),
        r < v@.len() ==> v@[r as int] == c,
{
    let mut i: usize = from;
    while i < v.len() && v[i] != c
        invariant
            from <= i <= v@.len(),
            next_char(v@, c, from as int) == next_char(v@, c, i as int),
        decreases v@.len() - i,
    {
        i = i + 1;
    }
    i
}

pub fn find_back(v: &[char], c: char, to: usize) -> (r: usize)
    requires
        to <= v@.len(),
    ensures
        r == after_last(v@, c, to as int),
        r <= to,
        r > 0 ==> v@[r - 1] == c,
{
    let mut i: usize = to;
    while i > 0 && v[i - 1] != c
        invariant
            i <= to <= v@.len(),
            after_last(v@, c, to as int) == after_last(v@, c, i as int),
        decreases i,
    {
        i = i - 1;
    }
    i
}

// ------------------------------------------------------------------ trimming

/// The characters of the Unicode property `White_Space`.
pub open spec fn is_white(c: char) -> bool {
    ||| '\u{9}' <= c <= '\u{d}'
    ||| c == ' '
    ||| c == '\u{85}'
    ||| c == '\u{a0}'
    ||| c == '\u{1680}'
    ||| '\u{2000}' <= c <= '\u{200a}'
    ||| c == '\u{2028}'
    ||| c == '\u{2029}'
    ||| c == '\u{202f}'
    ||| c == '\u{205f}'
    ||| c == '\u{3000}'
}

pub fn white(c: char) -> (r: bool)
    ensures
        r == is_white(c),
{
    ('\u{9}' <= c && c <= '\u{d}') || c == ' ' || c == '\u{85}' || c == '\u{a0}' || c == '\u{1680}'
        || ('\u{2000}' <= c && c <= '\u{200a}') || c == '\u{2028}' || c == '\u{2029}' || c
        == '\u{202f}' || c == '\u{205f}' || c == '\u{3000}'
}

/// `s` without its leading white space.
pub open spec fn trim_start(s: Seq<char>) -> Seq<char>
    decreases s.len(),
{
    if s.len() > 0 && is_white(s[0]) {
        trim_start(s.drop_first())
    } else {
        s
    }
}

/// `s` without its trailing white space.
pub open spec fn trim_end(s: Seq<char>) -> Seq<char>
    decreases s.len(),
{
    if s.len() > 0 && is_white(s.last()) {
        trim_end(s.drop_last())
    } else {
        s
    }
}

/// `s` without white space at either end.
pub open spec fn trim(s: Seq<char>) -> Seq<char> {
    trim_end(trim_start(s))
}

pub fn trimmed_end(s: &str) -> (r: String)
    ensures
        r@ == trim_end(s@),
{
    let v = chars_of(s);
    let mut n: usize = v.len();
    assert(v@.take(n as int) =~= v@);
    while n > 0 && white(v[n - 1])
        invariant
            n <= v@.len(),
            trim_end(v@) == trim_end(v@.take(n as int)),
        decreases n,
    {
        assert(v@.take(n as int).drop_last() =~= v@.take(n - 1));
        n = n - 1;
    }
    string_of(v.as_slice(), 0, n)
}

pub fn trimmed_start(s: &str) -> (r: String)
    ensures
        r@ == trim_start(s@),
{
    let v = chars_of(s);
    let mut n: usize = 0;
    assert(v@.skip(0) =~= v@);
    while n < v.len() && white(v[n])
        invariant
            n <= v@.len(),
            trim_start(v@) == trim_start(v@.skip(n as int)),
        decreases v@.len() - n,
    {
        assert(v@.skip(n as int).drop_first() =~= v@.skip(n + 1));
        n = n + 1;
    }
    string_of(v.as_slice(), n, v.len())
}

pub fn trimmed(s: &str) -> (r: String)
    ensures
        r@ == trim(s@),
{
    let t = trimmed_start(s);
    trimmed_end(&t)
}

// ----------------------------------------------------------------- splitting

/// Where a text is cut.
#[derive(Clone, Copy)]
pub enum Cut {
    /// At every such character.
    At(char),
    /// At white space.
    White,
    /// At everything but letters and digits.
    NotAlphanumeric,
}

/// `cut` cuts at the character `c`.
pub open spec fn cuts(cut: Cut, c: char) -> bool {
    match cut {
        Cut::At(d) => c == d,
        Cut::White => is_white(c),
        Cut::NotAlphanumeric => !alphanumeric(c),
    }
}

/// The pieces of `s` between the characters at which `cut` cuts, empty ones
/// among them. There is always at least one piece.
pub open spec fn pieces(s: Seq<char>, cut: Cut) -> Seq<Seq<char>>
    decreases s.len(),
{
    if s.len() == 0 {
        seq![Seq::<char>::empty()]
    } else {
        let p = pieces(s.drop_last(), cut);
        if cuts(cut, s.last()) {
            p.push(Seq::<char>::empty())
        } else {
            p.drop_last().push(p.last().push(s.last()))
        }
    }
}

pub proof fn lemma_pieces_nonempty(s: Seq<char>, cut: Cut)
    ensures
        pieces(s, cut).len() > 0,
    decreases s.len(),
{
    if s.len() > 0 {
        lemma_pieces_nonempty(s.drop_last(), cut);
    }
}

pub fn split(s: &str, cut: Cut) -> (r: Vec<String>)
    ensures
        texts(r@) == pieces(s@, cut),
        r@.len() > 0,
{
    let v = chars_of(s);
    let mut out: Vec<String> = Vec::new();
    let mut cur = String::new();
    let mut i: usize = 0;
    assert(texts(out@).push(cur@) =~= pieces(v@.take(0), cut));
    while i < v.len()
        invariant
            i <= v@.len(),
            texts(out@).push(cur@) == pieces(v@.take(i as int), cut),
        decreases v@.len() - i,
    {
        let c = v[i];
        let ghost so_far = texts(out@);
        let ghost piece = cur@;
        assert(v@.take(i + 1).drop_last() =~= v@.take(i as int));
        assert(so_far.push(piece).drop_last() =~= so_far);
        let hit = match cut {
            Cut::At(d) => c == d,
            Cut::White => white(c),
            Cut::NotAlphanumeric => !c.is_alphanumeric(),
        };
        if hit {
            out.push(cur);
            cur = String::new();
            assert(texts(out@) =~= so_far.push(piece));
        } else {
            cur.push(c);
        }
        i = i + 1;
    }
    assert(v@.take(v@.len() as int) =~= v@);
    let ghost done = texts(out@);
    let ghost piece = cur@;
    out.push(cur);
    assert(texts(out@) =~= done.push(piece));
    out
}

/// `s` without one carriage return at its end.
pub open spec fn strip_cr(s: Seq<char>) -> Seq<char> {
    if s.len() > 0 && s.last() == '\r' {
        s.drop_last()
    } else {
        s
    }
}

/// The lines of `s`. A line ends at a newline, or at a carriage return and a
/// newline; the last one may be without.
pub open spec fn lines(s: Seq<char>) -> Seq<Seq<char>> {
    let p = pieces(s, Cut::At('\n'));
    let ended = p.drop_last().map_values(|l: Seq<char>| strip_cr(l));
    if p.last().len() == 0 {
        ended
    } else {
        ended.push(p.last())
    }
}

/// A text that is not empty has a line.
pub proof fn lemma_text_has_a_line(s: Seq<char>)
    requires
        s.len() > 0,
    ensures
        lines(s).len() > 0,
{
    lemma_pieces_nonempty(s, Cut::At('\n'));
    let p = pieces(s, Cut::At('\n'));
    if p.len() == 1 {
        lemma_single_piece(s, Cut::At('\n'));
    }
}

/// A text with a single piece is that piece.
proof fn lemma_single_piece(s: Seq<char>, cut: Cut)
    requires
        pieces(s, cut).len() == 1,
    ensures
        pieces(s, cut)[0] == s,
    decreases s.len(),
{
    if s.len() > 0 {
        lemma_pieces_nonempty(s.drop_last(), cut);
        if !cuts(cut, s.last()) {
            lemma_single_piece(s.drop_last(), cut);
            assert(s =~= s.drop_last().push(s.last()));
        }
    }
}

pub fn lines_of(s: &str) -> (r: Vec<String>)
    ensures
        texts(r@) == lines(s@),
{
    let p = split(s, Cut::At('\n'));
    let ghost ps = pieces(s@, Cut::At('\n'));
    let ghost ended = ps.drop_last().map_values(|l: Seq<char>| strip_cr(l));
    let mut out: Vec<String> = Vec::new();
    let n: usize = p.len() - 1;
    let mut i: usize = 0;
    assert(texts(out@) =~= ended.take(0));
    while i < n
        invariant
            n + 1 == p@.len(),
            texts(p@) == ps,
            ended == ps.drop_last().map_values(|l: Seq<char>| strip_cr(l)),
            i <= n,
            texts(out@) == ended.take(i as int),
        decreases n - i,
    {
        let v = chars_of(&p[i]);
        assert(ps[i as int] == p@[i as int]@);
        let ghost before = texts(out@);
        let k: usize = if v.len() > 0 && v[v.len() - 1] == '\r' {
            v.len() - 1
        } else {
            v.len()
        };
        let line = string_of(v.as_slice(), 0, k);
        assert(line@ =~= strip_cr(p@[i as int]@));
        out.push(line);
        assert(texts(out@) =~= before.push(ended[i as int]));
        assert(ended.take(i + 1) =~= ended.take(i as int).push(ended[i as int]));
        i = i + 1;
    }
    assert(ended.take(n as int) =~= ended);
    assert(ps.last() == p@[n as int]@);
    if !p[n].as_str().is_empty() {
        out.push(p[n].clone());
        assert(texts(out@) =~= ended.push(ps.last()));
    }
    out
}

/// The words of `s`: its non-empty pieces between characters that `cut` cuts at.
pub open spec fn words(s: Seq<char>, cut: Cut) -> Seq<Seq<char>> {
    pieces(s, cut).filter(|w: Seq<char>| w.len() > 0)
}

pub fn words_of(s: &str, cut: Cut) -> (r: Vec<String>)
    ensures
        texts(r@) == words(s@, cut),
{
    let p = split(s, cut);
    let ghost ps = pieces(s@, cut);
    let ghost keep = |w: Seq<char>| w.len() > 0;
    let mut out: Vec<String> = Vec::new();
    let mut i: usize = 0;
    assert(texts(out@) =~= ps.take(0).filter(keep)) by {
        reveal(Seq::filter);
    }
    while i < p.len()
        invariant
            texts(p@) == ps,
            keep == (|w: Seq<char>| w.len() > 0),
            i <= p@.len(),
            texts(out@) == ps.take(i as int).filter(keep),
        decreases p@.len() - i,
    {
        let ghost before = texts(out@);
        proof {
            lemma_filter_step(ps, keep, i as int);
            assert(ps[i as int] == p@[i as int]@);
        }
        if !p[i].as_str().is_empty() {
            out.push(p[i].clone());
            assert(texts(out@) =~= before.push(ps[i as int]));
        }
        i = i + 1;
    }
    assert(ps.take(ps.len() as int) =~= ps);
    out
}

/// Filtering one element more.
pub proof fn lemma_filter_step<A>(s: Seq<A>, keep: spec_fn(A) -> bool, i: int)
    requires
        0 <= i < s.len(),
    ensures
        s.take(i + 1).filter(keep) == if keep(s[i]) {
            s.take(i).filter(keep).push(s[i])
        } else {
            s.take(i).filter(keep)
        },
{
    reveal(Seq::filter);
    assert(s.take(i + 1).drop_last() =~= s.take(i));
}

// ------------------------------------------------------------------- joining

/// The parts with `sep` between each two.
pub open spec fn joined(parts: Seq<Seq<char>>, sep: Seq<char>) -> Seq<char>
    decreases parts.len(),
{
    if parts.len() == 0 {
        Seq::empty()
    } else if parts.len() == 1 {
        parts[0]
    } else {
        joined(parts.drop_last(), sep) + sep + parts.last()
    }
}

pub fn join(parts: &Vec<String>, sep: &str) -> (r: String)
    ensures
        r@ == joined(texts(parts@), sep@),
{
    let ghost ps = texts(parts@);
    let mut s = String::new();
    let mut i: usize = 0;
    while i < parts.len()
        invariant
            ps == texts(parts@),
            i <= parts@.len(),
            s@ == joined(ps.take(i as int), sep@),
        decreases parts@.len() - i,
    {
        assert(ps.take(i + 1).drop_last() =~= ps.take(i as int));
        assert(ps.take(i + 1).last() == parts@[i as int]@);
        if i == 0 {
            s = parts[i].clone();
        } else {
            s.append(sep);
            s.append(&parts[i]);
        }
        i = i + 1;
    }
    assert(ps.take(ps.len() as int) =~= ps);
    s
}

// ----------------------------------------------------------------- replacing

/// `s` with every double quote turned into an apostrophe.
pub open spec fn unquoted(s: Seq<char>) -> Seq<char> {
    s.map_values(|c: char| if c == '"' { '\'' } else { c })
}

pub fn without_quotes(s: &str) -> (r: String)
    ensures
        r@ == unquoted(s@),
{
    let v = chars_of(s);
    let mut out = String::new();
    let mut i: usize = 0;
    while i < v.len()
        invariant
            v@ == s@,
            i <= v@.len(),
            out@ == unquoted(s@).take(i as int),
        decreases v@.len() - i,
    {
        let c = if v[i] == '"' { '\'' } else { v[i] };
        out.push(c);
        assert(unquoted(s@).take(i + 1) =~= unquoted(s@).take(i as int).push(c));
        i = i + 1;
    }
    assert(unquoted(s@).take(v@.len() as int) =~= unquoted(s@));
    out
}

/// The first place at or after `from` where `pat` stands; -1 if there is none.
pub open spec fn next_match(s: Seq<char>, pat: Seq<char>, from: int) -> int
    decreases s.len() - from + 1,
{
    if from + pat.len() > s.len() {
        -1
    } else if occurs_at(s, pat, from) {
        from
    } else {
        next_match(s, pat, from + 1)
    }
}

/// How many times `pat` stands in `s` from `from` on, counting from the left
/// and without overlaps.
pub open spec fn match_count(s: Seq<char>, pat: Seq<char>, from: int) -> nat
    decreases s.len() - from + 1, 
    when pat.len() > 0 && from >= 0 
    via match_count_decreases
{
    let i = next_match(s, pat, from);
    if i < 0 {
        0
    } else {
        1 + match_count(s, pat, i + pat.len())
    }
}

#[via_fn]
proof fn match_count_decreases(s: Seq<char>, pat: Seq<char>, from: int) {
    lemma_next_match(s, pat, from);
}

pub proof fn lemma_next_match(s: Seq<char>, pat: Seq<char>, from: int)
    requires
        from >= 0,
    ensures
        next_match(s, pat, from) == -1 || (from <= next_match(s, pat, from) && occurs_at(
            s,
            pat,
            next_match(s, pat, from),
        )),
    decreases s.len() - from + 1,
{
    if from + pat.len() > s.len() {
    } else if occurs_at(s, pat, from) {
    } else {
        lemma_next_match(s, pat, from + 1);
    }
}

pub fn find_match(s: &[char], pat: &[char], from: usize) -> (r: Option<usize>)
    requires
        from <= s@.len(),
    ensures
        match r {
            Some(i) => i == next_match(s@, pat@, from as int) && from <= i && occurs_at(
                s@,
                pat@,
                i as int,
            ),
            None => next_match(s@, pat@, from as int) == -1,
        },
{
    let n: usize = s.len();
    let mut i: usize = from;
    while i <= n
        invariant
            n == s@.len(),
            from <= i <= n,
            next_match(s@, pat@, from as int) == next_match(s@, pat@, i as int),
        decreases n + 1 - i,
    {
        if pat.len() > n - i {
            return None;
        }
        if match_at(s, pat, i) {
            return Some(i);
        }
        if i == n {
            assert(pat@.len() == 0);
            assert(s@.subrange(i as int, i + pat@.len()) =~= pat@);
            return None;
        }
        i = i + 1;
    }
    None
}

pub fn count_matches(s: &[char], pat: &[char]) -> (r: usize)
    requires
        pat@.len() > 0,
    ensures
        r == match_count(s@, pat@, 0),
{
    let n: usize = s.len();
    let mut at: usize = 0;
    let mut hits: usize = 0;
    loop
        invariant
            n == s@.len(),
            pat@.len() > 0,
            at <= n,
            hits <= at,
            match_count(s@, pat@, 0) == hits + match_count(s@, pat@, at as int),
        decreases n - at,
    {
        match find_match(s, pat, at) {
            Some(i) => {
                hits = hits + 1;
                at = i + pat.len();
            },
            None => {
                return hits;
            },
        }
    }
}

// ------------------------------------------------------------------- numbers

/// The decimal digit `d`.
pub open spec fn digit(d: nat) -> char {
    if d == 0 {
        '0'
    } else if d == 1 {
        '1'
    } else if d == 2 {
        '2'
    } else if d == 3 {
        '3'
    } else if d == 4 {
        '4'
    } else if d == 5 {
        '5'
    } else if d == 6 {
        '6'
    } else if d == 7 {
        '7'
    } else if d == 8 {
        '8'
    } else {
        '9'
    }
}

/// `n` in decimal.
pub open spec fn decimal(n: nat) -> Seq<char>
    decreases n,
{
    if n < 10 {
        seq![digit(n)]
    } else {
        decimal(n / 10).push(digit(n % 10))
    }
}

/// `n` in decimal, with a minus sign if it is negative.
pub open spec fn signed_decimal(n: int) -> Seq<char> {
    if n < 0 {
        "-"@ + decimal((-n) as nat)
    } else {
        decimal(n as nat)
    }
}

pub fn digit_of(d: u64) -> (r: char)
    requires
        d < 10,
    ensures
        r == digit(d as nat),
{
    if d == 0 {
        '0'
    } else if d == 1 {
        '1'
    } else if d == 2 {
        '2'
    } else if d == 3 {
        '3'
    } else if d == 4 {
        '4'
    } else if d == 5 {
        '5'
    } else if d == 6 {
        '6'
    } else if d == 7 {
        '7'
    } else if d == 8 {
        '8'
    } else {
        '9'
    }
}

pub fn decimal_of(n: u64) -> (r: String)
    ensures
        r@ == decimal(n as nat),
    decreases n,
{
    if n < 10 {
        let mut s = String::new();
        s.push(digit_of(n));
        assert(s@ =~= seq![digit(n as nat)]);
        s
    } else {
        let mut s = decimal_of(n / 10);
        s.push(digit_of(n % 10));
        s
    }
}

pub fn signed_decimal_of(n: i32) -> (r: String)
    ensures
        r@ == signed_decimal(n as int),
{
    let w: i64 = n as i64;
    if w < 0 {
        let mut s = "-".to_owned();
        s.append(&decimal_of((-w) as u64));
        s
    } else {
        decimal_of(w as u64)
    }
}

// ------------------------------------------------------------------- padding

/// `n` spaces.
pub open spec fn spaces(n: nat) -> Seq<char> {
    Seq::new(n, |i: int| ' ')
}

/// `s` filled up with spaces to `width` characters; unchanged if it is longer.
pub open spec fn padded(s: Seq<char>, width: nat) -> Seq<char> {
    if s.len() < width {
        s + spaces((width - s.len()) as nat)
    } else {
        s
    }
}

pub fn pad(s: &str, width: usize) -> (r: String)
    ensures
        r@ == padded(s@, width as nat),
{
    let v = chars_of(s);
    let mut out = s.to_owned();
    let mut n: usize = v.len();
    assert(out@ =~= s@ + spaces(0));
    while n < width
        invariant
            v@ == s@,
            v@.len() <= n,
            n <= width || n == v@.len(),
            out@ == s@ + spaces((n - v@.len()) as nat),
        decreases width - n,
    {
        out.push(' ');
        n = n + 1;
        assert(out@ =~= s@ + spaces((n - v@.len()) as nat));
    }
    assert(s@ + spaces(0) =~= s@);
    out
}

/// The value of a decimal digit; 10 for any other character.
pub open spec fn digit_value(c: char) -> nat {
    if '0' <= c <= '9' {
        ((c as u32) - ('0' as u32)) as nat
    } else {
        10
    }
}

/// All of `s` are decimal digits.
pub open spec fn all_digits(s: Seq<char>) -> bool {
    forall|i: int| 0 <= i < s.len() ==> digit_value(#[trigger] s[i]) < 10
}

/// The number that a row of decimal digits writes.
pub open spec fn number(s: Seq<char>) -> nat
    decreases s.len(),
{
    if s.len() == 0 {
        0
    } else {
        number(s.drop_last()) * 10 + digit_value(s.last())
    }
}

/// The digits of a number that may have a plus sign.
pub open spec fn unsigned_digits(s: Seq<char>) -> Seq<char> {
    if s.len() > 0 && s[0] == '+' {
        s.skip(1)
    } else {
        s
    }
}

/// The number that `s` writes: digits, with a plus sign or without; `None` for
/// any other text and for a number that is no `usize`.
pub open spec fn parsed_usize(s: Seq<char>) -> Option<usize> {
    let d = unsigned_digits(s);
    if d.len() > 0 && all_digits(d) && number(d) <= usize::MAX {
        Some(number(d) as usize)
    } else {
        None
    }
}

proof fn lemma_number_grows(s: Seq<char>, i: int)
    requires
        0 <= i <= s.len(),
    ensures
        number(s.take(i)) <= number(s),
    decreases s.len(),
{
    if i == s.len() {
        assert(s.take(i) =~= s);
    } else {
        assert(s.drop_last().take(i) =~= s.take(i));
        lemma_number_grows(s.drop_last(), i);
    }
}

pub fn parse_usize(s: &str) -> (r: Option<usize>)
    ensures
        r == parsed_usize(s@),
{
    let v = chars_of(s);
    let from: usize = if v.len() > 0 && v[0] == '+' {
        1
    } else {
        0
    };
    let ghost d = unsigned_digits(s@);
    assert(d =~= v@.skip(from as int));
    if from == v.len() {
        return None;
    }
    let mut n: usize = 0;
    let mut i: usize = from;
    while i < v.len()
        invariant
            v@ == s@,
            d == v@.skip(from as int),
            d == unsigned_digits(s@),
            d.len() > 0,
            from <= i <= v@.len(),
            all_digits(d.take(i - from)),
            n == number(d.take(i - from)),
        decreases v@.len() - i,
    {
        let c = v[i];
        assert(d[i - from] == c);
        if !('0' <= c && c <= '9') {
            return None;
        }
        let value: usize = (c as u32 - '0' as u32) as usize;
        let ghost next = d.take(i + 1 - from);
        proof {
            assert(next.drop_last() =~= d.take(i - from));
            assert(next.last() == c);
            assert forall|k: int| 0 <= k < next.len() implies digit_value(#[trigger] next[k]) < 10 by {
                if k < i - from {
                    assert(next[k] == d.take(i - from)[k]);
                }
            }
            lemma_number_grows(d, i + 1 - from);
        }
        if n > usize::MAX / 10 {
            return None;
        }
        let tens: usize = n * 10;
        if tens > usize::MAX - value {
            return None;
        }
        n = tens + value;
        i = i + 1;
    }
    assert(d.take(d.len() as int) =~= d);
    Some(n)
}

// --------------------------------------------------------------------- bytes

/// How many bytes a character takes in UTF-8.
pub open spec fn width(c: char) -> nat {
    if c <= '\u{7f}' {
        1
    } else if c <= '\u{7ff}' {
        2
    } else if c <= '\u{ffff}' {
        3
    } else {
        4
    }
}

/// How many bytes a text takes in UTF-8.
pub open spec fn size(s: Seq<char>) -> nat
    decreases s.len(),
{
    if s.len() == 0 {
        0
    } else {
        size(s.drop_last()) + width(s.last())
    }
}

pub proof fn lemma_size_push(s: Seq<char>, c: char)
    ensures
        size(s.push(c)) == size(s) + width(c),
{
    assert(s.push(c).drop_last() =~= s);
}

pub proof fn lemma_size_add(a: Seq<char>, b: Seq<char>)
    ensures
        size(a + b) == size(a) + size(b),
    decreases b.len(),
{
    if b.len() == 0 {
        assert(a + b =~= a);
    } else {
        assert((a + b).drop_last() =~= a + b.drop_last());
        lemma_size_add(a, b.drop_last());
    }
}

proof fn lemma_width(c: char)
    ensures
        encode_scalar(c as u32).len() == width(c),
{
    char_is_scalar(c);
}

/// `size` is the length of the UTF-8 encoding.
pub proof fn lemma_size_is_encoded_length(s: Seq<char>)
    ensures
        encode_utf8(s).len() == size(s),
    decreases s.len(),
{
    if s.len() > 0 {
        let head = seq![s[0]];
        assert(s =~= head + s.drop_first());
        lemma_size_add(head, s.drop_first());
        lemma_size_is_encoded_length(s.drop_first());
        assert(head.drop_last() =~= Seq::<char>::empty());
        assert(size(Seq::<char>::empty()) == 0);
        assert(size(head) == width(s[0]));
        lemma_width(s[0]);
    }
}

pub fn width_of(c: char) -> (r: usize)
    ensures
        r == width(c),
{
    if c <= '\u{7f}' {
        1
    } else if c <= '\u{7ff}' {
        2
    } else if c <= '\u{ffff}' {
        3
    } else {
        4
    }
}

/// The length of `s` in bytes.
pub fn byte_len(s: &str) -> (r: usize)
    ensures
        r == size(s@),
{
    proof {
        lemma_size_is_encoded_length(s@);
    }
    s.as_bytes().len()
}

/// How many leading characters of `s` fit into `b` bytes.
pub open spec fn fitting(s: Seq<char>, b: nat) -> nat
    decreases s.len(),
{
    if s.len() == 0 {
        0
    } else if size(s) <= b {
        s.len()
    } else {
        fitting(s.drop_last(), b)
    }
}

/// The byte offset `b` lies between two characters of `s`, or at an end.
pub open spec fn on_boundary(s: Seq<char>, b: nat) -> bool {
    size(s.take(fitting(s, b) as int)) == b
}

/// The longest prefix that fits.
pub proof fn lemma_fitting(s: Seq<char>, b: nat)
    ensures
        fitting(s, b) <= s.len(),
        size(s.take(fitting(s, b) as int)) <= b,
        forall|k: int|
            fitting(s, b) < k <= s.len() ==> size(#[trigger] s.take(k)) > b,
    decreases s.len(),
{
    if s.len() == 0 {
        assert(s.take(0) =~= s);
    } else if size(s) <= b {
        assert(s.take(s.len() as int) =~= s);
    } else {
        let t = s.drop_last();
        lemma_fitting(t, b);
        assert(s.take(fitting(s, b) as int) =~= t.take(fitting(t, b) as int));
        assert forall|k: int| fitting(s, b) < k <= s.len() implies size(#[trigger] s.take(k)) > b by {
            if k == s.len() {
                assert(s.take(k) =~= s);
            } else {
                assert(s.take(k) =~= t.take(k));
            }
        }
    }
}

pub proof fn lemma_size_grows(s: Seq<char>, i: int, j: int)
    requires
        0 <= i <= j <= s.len(),
    ensures
        size(s.take(i)) + (j - i) <= size(s.take(j)),
    decreases j - i,
{
    if i < j {
        lemma_size_grows(s, i, j - 1);
        assert(s.take(j).drop_last() =~= s.take(j - 1));
    }
}

/// A prefix of `s` that takes `b` bytes is the one that fits into `b` bytes.
pub proof fn lemma_boundary(s: Seq<char>, k: int)
    requires
        0 <= k <= s.len(),
    ensures
        fitting(s, size(s.take(k))) == k,
        on_boundary(s, size(s.take(k))),
{
    let b = size(s.take(k));
    lemma_fitting(s, b);
    let f = fitting(s, b) as int;
    if f > k {
        lemma_size_grows(s, k, f);
    }
    if f < k {
        assert(size(s.take(k)) > b);
    }
}

/// How many leading characters fit into `b` bytes.
pub fn fit(v: &[char], b: usize) -> (r: usize)
    ensures
        r == fitting(v@, b as nat),
        r <= v@.len(),
{
    let mut left: usize = b;
    let mut i: usize = 0;
    assert(v@.take(0) =~= Seq::<char>::empty());
    proof {
        lemma_fitting(v@, b as nat);
    }
    while i < v.len()
        invariant
            i <= v@.len(),
            left + size(v@.take(i as int)) == b,
            i <= fitting(v@, b as nat) <= v@.len(),
            size(v@.take(fitting(v@, b as nat) as int)) <= b,
            forall|k: int|
                fitting(v@, b as nat) < k <= v@.len() ==> size(#[trigger] v@.take(k)) > b,
        decreases v@.len() - i,
    {
        let w: usize = width_of(v[i]);
        assert(v@.take(i + 1) =~= v@.take(i as int).push(v@[i as int]));
        proof {
            lemma_size_push(v@.take(i as int), v@[i as int]);
        }
        if w > left {
            proof {
                let f = fitting(v@, b as nat) as int;
                if f > i {
                    lemma_size_grows(v@, i + 1, f);
                }
            }
            return i;
        }
        left = left - w;
        i = i + 1;
    }
    i
}

/// The character that the byte offset `b` points at; `None` if it points into
/// the middle of one, or past the end.
pub fn char_index(v: &[char], b: usize) -> (r: Option<usize>)
    ensures
        match r {
            Some(k) => on_boundary(v@, b as nat) && k == fitting(v@, b as nat) && k <= v@.len(),
            None => !on_boundary(v@, b as nat),
        },
{
    let mut left: usize = b;
    let mut i: usize = 0;
    assert(v@.take(0) =~= Seq::<char>::empty());
    proof {
        lemma_fitting(v@, b as nat);
    }
    loop
        invariant
            i <= v@.len(),
            left + size(v@.take(i as int)) == b,
            fitting(v@, b as nat) <= v@.len(),
            size(v@.take(fitting(v@, b as nat) as int)) <= b,
            forall|k: int|
                fitting(v@, b as nat) < k <= v@.len() ==> size(#[trigger] v@.take(k)) > b,
        decreases v@.len() - i,
    {
        if left == 0 {
            proof {
                lemma_boundary(v@, i as int);
            }
            return Some(i);
        }
        if i == v.len() {
            proof {
                let f = fitting(v@, b as nat) as int;
                lemma_size_grows(v@, f, v@.len() as int);
            }
            return None;
        }
        let w: usize = width_of(v[i]);
        assert(v@.take(i + 1) =~= v@.take(i as int).push(v@[i as int]));
        proof {
            lemma_size_push(v@.take(i as int), v@[i as int]);
        }
        if w > left {
            proof {
                let f = fitting(v@, b as nat) as int;
                if f <= i {
                    lemma_size_grows(v@, f, i as int);
                } else {
                    lemma_size_grows(v@, i + 1, f);
                }
            }
            return None;
        }
        left = left - w;
        i = i + 1;
    }
}

// --------------------------------------------------------------------- order

/// `a` comes before `b` in the order of their characters.
pub open spec fn before(a: Seq<char>, b: Seq<char>) -> bool
    decreases a.len(),
{
    if b.len() == 0 {
        false
    } else if a.len() == 0 {
        true
    } else if a[0] == b[0] {
        before(a.drop_first(), b.drop_first())
    } else {
        a[0] < b[0]
    }
}

/// The order is total.
pub proof fn lemma_before_total(a: Seq<char>, b: Seq<char>)
    ensures
        before(a, b) || before(b, a) || a == b,
        !(before(a, b) && before(b, a)),
        before(a, b) ==> a != b,
    decreases a.len(),
{
    if a.len() > 0 && b.len() > 0 {
        if a[0] == b[0] {
            lemma_before_total(a.drop_first(), b.drop_first());
            if a.drop_first() == b.drop_first() {
                assert(a =~= seq![a[0]] + a.drop_first());
                assert(b =~= seq![b[0]] + b.drop_first());
            }
        }
    } else {
        assert(a.len() == 0 && b.len() == 0 ==> a =~= b);
    }
}

/// The order is transitive.
pub proof fn lemma_before_transitive(a: Seq<char>, b: Seq<char>, c: Seq<char>)
    requires
        before(a, b),
        before(b, c),
    ensures
        before(a, c),
    decreases a.len(),
{
    if a.len() > 0 && b.len() > 0 && c.len() > 0 && a[0] == b[0] && b[0] == c[0] {
        lemma_before_transitive(a.drop_first(), b.drop_first(), c.drop_first());
    }
}

pub fn comes_before(a: &str, b: &str) -> (r: bool)
    ensures
        r == before(a@, b@),
{
    let u = chars_of(a);
    let v = chars_of(b);
    let mut i: usize = 0;
    assert(u@.skip(0) =~= u@);
    assert(v@.skip(0) =~= v@);
    loop
        invariant
            u@ == a@,
            v@ == b@,
            i <= u@.len(),
            i <= v@.len(),
            before(a@, b@) == before(u@.skip(i as int), v@.skip(i as int)),
        decreases u@.len() - i,
    {
        if i == v.len() {
            return false;
        }
        if i == u.len() {
            return true;
        }
        if u[i] != v[i] {
            return u[i] < v[i];
        }
        assert(u@.skip(i as int).drop_first() =~= u@.skip(i + 1));
        assert(v@.skip(i as int).drop_first() =~= v@.skip(i + 1));
        i = i + 1;
    }
}

// ---------------------------------------------------------------------- laws

/// The next `c` is the first one: none stands before it, and where the end of
/// the text is not reached a `c` stands there.
pub proof fn law_next_char_is_the_first(s: Seq<char>, c: char, from: int)
    requires
        0 <= from <= s.len(),
    ensures
        from <= next_char(s, c, from) <= s.len(),
        forall|i: int| from <= i < next_char(s, c, from) ==> s[i] != c,
        next_char(s, c, from) < s.len() ==> s[next_char(s, c, from)] == c,
    decreases s.len() - from,
{
    if from < s.len() && s[from] != c {
        law_next_char_is_the_first(s, c, from + 1);
    }
}

/// The place behind the last `c` has no `c` between it and the end of the search,
/// and a `c` right before it unless it is the start of the text.
pub proof fn law_after_last_is_the_last(s: Seq<char>, c: char, to: int)
    requires
        0 <= to <= s.len(),
    ensures
        0 <= after_last(s, c, to) <= to,
        forall|i: int| after_last(s, c, to) <= i < to ==> s[i] != c,
        after_last(s, c, to) > 0 ==> s[after_last(s, c, to) - 1] == c,
    decreases to,
{
    if to > 0 && s[to - 1] != c {
        law_after_last_is_the_last(s, c, to - 1);
    }
}

/// The next match is the first one: nothing matches before it, and where there
/// is none nothing matches at all.
pub proof fn law_next_match_is_the_first(s: Seq<char>, pat: Seq<char>, from: int)
    requires
        0 <= from,
    ensures
        ({
            let m = next_match(s, pat, from);
            &&& m == -1 || (from <= m && m + pat.len() <= s.len() && s.subrange(m, m + pat.len())
                == pat)
            &&& forall|i: int|
                from <= i && i + pat.len() <= s.len() && (m == -1 || i < m)
                    ==> #[trigger] s.subrange(i, i + pat.len()) != pat
        }),
    decreases s.len() - from + 1,
{
    if from + pat.len() > s.len() {
    } else if occurs_at(s, pat, from) {
    } else {
        law_next_match_is_the_first(s, pat, from + 1);
    }
}

/// Matches are counted without overlap: there is none exactly where the pattern
/// stands nowhere, and behind the first match the count is one less.
pub proof fn law_matches_are_counted(s: Seq<char>, pat: Seq<char>, from: int)
    requires
        0 <= from,
        pat.len() > 0,
    ensures
        match_count(s, pat, from) == 0 <==> forall|i: int|
            from <= i && i + pat.len() <= s.len() ==> #[trigger] s.subrange(i, i + pat.len())
                != pat,
        forall|i: int|
            from <= i && i + pat.len() <= s.len() && #[trigger] s.subrange(i, i + pat.len()) == pat
                && (forall|j: int|
                from <= j < i ==> #[trigger] s.subrange(j, j + pat.len()) != pat)
                ==> match_count(s, pat, from) == 1 + match_count(s, pat, i + pat.len()),
{
    law_next_match_is_the_first(s, pat, from);
    let m = next_match(s, pat, from);
    if m >= 0 {
        assert(s.subrange(m, m + pat.len()) == pat);
        assert forall|i: int|
            from <= i && i + pat.len() <= s.len() && #[trigger] s.subrange(i, i + pat.len()) == pat
                && (forall|j: int|
                from <= j < i ==> #[trigger] s.subrange(j, j + pat.len())
                    != pat) implies match_count(s, pat, from) == 1 + match_count(
            s,
            pat,
            i + pat.len(),
        ) by {
            assert(i == m);
        }
    }
}

/// Trimming the start takes white space only, and all of it.
pub proof fn law_trim_start_drops_white_space(s: Seq<char>)
    ensures
        ({
            let k = s.len() - trim_start(s).len();
            &&& 0 <= k <= s.len()
            &&& trim_start(s) == s.skip(k)
            &&& forall|i: int| 0 <= i < k ==> is_white(#[trigger] s[i])
            &&& k < s.len() ==> !is_white(s[k])
        }),
    decreases s.len(),
{
    if s.len() > 0 && is_white(s[0]) {
        let t = s.drop_first();
        law_trim_start_drops_white_space(t);
        let k = s.len() - trim_start(s).len();
        assert(t.skip(k - 1) =~= s.skip(k));
        assert forall|i: int| 0 <= i < k implies is_white(#[trigger] s[i]) by {
            if i > 0 {
                assert(is_white(t[i - 1]));
            }
        }
        if k < s.len() {
            assert(s[k] == t[k - 1]);
        }
    } else {
        assert(s.skip(0) =~= s);
    }
}

/// Trimming the end takes white space only, and all of it.
pub proof fn law_trim_end_drops_white_space(s: Seq<char>)
    ensures
        ({
            let k = trim_end(s).len() as int;
            &&& 0 <= k <= s.len()
            &&& trim_end(s) == s.take(k)
            &&& forall|i: int| k <= i < s.len() ==> is_white(#[trigger] s[i])
            &&& k > 0 ==> !is_white(s[k - 1])
        }),
    decreases s.len(),
{
    if s.len() > 0 && is_white(s.last()) {
        let t = s.drop_last();
        law_trim_end_drops_white_space(t);
        let k = trim_end(s).len() as int;
        assert(t.take(k) =~= s.take(k));
        assert forall|i: int| k <= i < s.len() implies is_white(#[trigger] s[i]) by {
            if i < s.len() - 1 {
                assert(is_white(t[i]));
            }
        }
    } else {
        assert(s.take(s.len() as int) =~= s);
    }
}

/// A trimmed text is a stretch of the text with white space on both sides of it
/// and none at its own ends.
pub proof fn law_trimmed_text_is_a_stretch(s: Seq<char>)
    ensures
        exists|i: int, j: int|
            {
                &&& 0 <= i <= j <= s.len()
                &&& trim(s) == #[trigger] s.subrange(i, j)
                &&& forall|k: int| 0 <= k < i || j <= k < s.len() ==> is_white(#[trigger] s[k])
                &&& i < j ==> !is_white(s[i]) && !is_white(s[j - 1])
            },
{
    let t = trim_start(s);
    law_trim_start_drops_white_space(s);
    law_trim_end_drops_white_space(t);
    let i = s.len() - t.len();
    let n = trim_end(t).len() as int;
    assert(trim(s) =~= s.subrange(i, i + n));
    assert forall|k: int| 0 <= k < i || i + n <= k < s.len() implies is_white(#[trigger] s[k]) by {
        if k >= i {
            assert(is_white(t[k - i]));
        }
    }
    if n > 0 {
        assert(s[i + n - 1] == t[n - 1]);
        assert(s[i] == t[0]);
    }
}

/// White space is what Unicode calls so: tab to carriage return, the space, the
/// next-line character, the no-break space, and those of the later blocks.
pub proof fn law_white_space_is_unicode_white_space(c: char)
    ensures
        is_white(c) <==> ({
            let u = c as u32;
            ||| 9 <= u <= 13
            ||| u == 32
            ||| u == 133
            ||| u == 160
            ||| u == 5760
            ||| 8192 <= u <= 8202
            ||| u == 8232
            ||| u == 8233
            ||| u == 8239
            ||| u == 8287
            ||| u == 12288
        }),
{
}

/// A text without a cut is one piece, and a cut parts the pieces before it from
/// the pieces after it.
pub proof fn law_pieces_part_at_cuts(a: Seq<char>, c: char, b: Seq<char>, cut: Cut)
    ensures
        (forall|i: int| 0 <= i < a.len() ==> !cuts(cut, #[trigger] a[i])) ==> pieces(a, cut)
            == seq![a],
        cuts(cut, c) ==> pieces(a.push(c) + b, cut) == pieces(a, cut) + pieces(b, cut),
{
    if forall|i: int| 0 <= i < a.len() ==> !cuts(cut, #[trigger] a[i]) {
        lemma_uncut(a, cut);
    }
    if cuts(cut, c) {
        lemma_pieces_part(a, c, b, cut);
    }
}

proof fn lemma_uncut(a: Seq<char>, cut: Cut)
    requires
        forall|i: int| 0 <= i < a.len() ==> !cuts(cut, #[trigger] a[i]),
    ensures
        pieces(a, cut) == seq![a],
    decreases a.len(),
{
    if a.len() == 0 {
        assert(a =~= Seq::<char>::empty());
    } else {
        let t = a.drop_last();
        assert forall|i: int| 0 <= i < t.len() implies !cuts(cut, #[trigger] t[i]) by {
            assert(t[i] == a[i]);
        }
        lemma_uncut(t, cut);
        assert(t.push(a.last()) =~= a);
        assert(!cuts(cut, a[a.len() - 1]));
        assert(pieces(a, cut) =~= seq![a]);
    }
}

proof fn lemma_pieces_part(a: Seq<char>, c: char, b: Seq<char>, cut: Cut)
    requires
        cuts(cut, c),
    ensures
        pieces(a.push(c) + b, cut) == pieces(a, cut) + pieces(b, cut),
    decreases b.len(),
{
    let s = a.push(c) + b;
    if b.len() == 0 {
        assert(s.drop_last() =~= a);
        assert(pieces(s, cut) =~= pieces(a, cut) + pieces(b, cut));
    } else {
        let t = b.drop_last();
        lemma_pieces_part(a, c, t, cut);
        lemma_pieces_nonempty(t, cut);
        assert(s.drop_last() =~= a.push(c) + t);
        assert(s.last() == b.last());
        assert(pieces(s, cut) =~= pieces(a, cut) + pieces(b, cut));
    }
}

/// Which characters cut: the one that is named, white space, or whatever is
/// neither letter nor digit.
pub proof fn law_cuts(c: char, d: char)
    ensures
        cuts(Cut::At(d), c) <==> c == d,
        cuts(Cut::White, c) <==> is_white(c),
        cuts(Cut::NotAlphanumeric, c) <==> !alphanumeric(c),
{
}

/// The words of a text: a text without a cut is one word unless it is empty, and
/// a cut parts the words before it from the words after it.
pub proof fn law_words_part_at_cuts(a: Seq<char>, c: char, b: Seq<char>, cut: Cut)
    ensures
        words(Seq::empty(), cut) == Seq::<Seq<char>>::empty(),
        a.len() > 0 && (forall|i: int| 0 <= i < a.len() ==> !cuts(cut, #[trigger] a[i]))
            ==> words(a, cut) == seq![a],
        cuts(cut, c) ==> words(a.push(c) + b, cut) == words(a, cut) + words(b, cut),
{
    let keep = |w: Seq<char>| w.len() > 0;
    lemma_uncut(Seq::empty(), cut);
    lemma_filter_one(Seq::<char>::empty(), keep);
    if a.len() > 0 && (forall|i: int| 0 <= i < a.len() ==> !cuts(cut, #[trigger] a[i])) {
        lemma_uncut(a, cut);
        lemma_filter_one(a, keep);
    }
    if cuts(cut, c) {
        lemma_pieces_part(a, c, b, cut);
        Seq::filter_distributes_over_add(pieces(a, cut), pieces(b, cut), keep);
    }
}

proof fn lemma_filter_one(a: Seq<char>, keep: spec_fn(Seq<char>) -> bool)
    ensures
        seq![a].filter(keep) == if keep(a) {
            seq![a]
        } else {
            Seq::empty()
        },
{
    reveal_with_fuel(Seq::filter, 2);
    assert(seq![a].drop_last() =~= Seq::<Seq<char>>::empty());
    assert(seq![a].filter(keep) =~= if keep(a) {
        seq![a]
    } else {
        Seq::empty()
    });
}

/// The lines of a text: none of an empty one; a text without a newline is one
/// line; and the first newline ends a line, without a carriage return right
/// before it, with the lines of the rest behind it.
pub proof fn law_lines_end_at_newlines(a: Seq<char>, b: Seq<char>)
    requires
        forall|i: int| 0 <= i < a.len() ==> a[i] != '\n',
    ensures
        lines(Seq::empty()) == Seq::<Seq<char>>::empty(),
        a.len() > 0 ==> lines(a) == seq![a],
        a.len() > 0 && a.last() == '\r' ==> lines(a.push('\n') + b) == seq![a.drop_last()] + lines(
            b,
        ),
        a.len() == 0 || a.last() != '\r' ==> lines(a.push('\n') + b) == seq![a] + lines(b),
{
    let cut = Cut::At('\n');
    lemma_uncut(Seq::empty(), cut);
    assert(lines(Seq::empty()) =~= Seq::<Seq<char>>::empty());
    lemma_uncut(a, cut);
    if a.len() > 0 {
        assert(lines(a) =~= seq![a]);
    }
    lemma_pieces_part(a, '\n', b, cut);
    lemma_pieces_nonempty(b, cut);
    let p = pieces(b, cut);
    let q = pieces(a.push('\n') + b, cut);
    assert(q =~= seq![a] + p);
    assert(q.last() == p.last());
    assert(q.drop_last() =~= seq![a] + p.drop_last());
    assert(lines(a.push('\n') + b) =~= seq![strip_cr(a)] + lines(b));
}

/// Joining: nothing gives nothing, one part gives that part, and two runs of
/// parts come with the separator between them.
pub proof fn law_joining_puts_the_separator_between(
    a: Seq<Seq<char>>,
    b: Seq<Seq<char>>,
    sep: Seq<char>,
)
    ensures
        joined(Seq::empty(), sep) == Seq::<char>::empty(),
        a.len() == 1 ==> joined(a, sep) == a[0],
        a.len() > 0 && b.len() > 0 ==> joined(a + b, sep) == joined(a, sep) + sep + joined(b, sep),
    decreases b.len(),
{
    if a.len() > 0 && b.len() > 0 {
        assert((a + b).drop_last() =~= a + b.drop_last());
        assert((a + b).last() == b.last());
        if b.len() == 1 {
            assert(a + b.drop_last() =~= a);
        } else {
            law_joining_puts_the_separator_between(a, b.drop_last(), sep);
        }
        assert(joined(a + b, sep) =~= joined(a, sep) + sep + joined(b, sep));
    }
}

/// What was split at a character is put together again by joining with it.
pub proof fn law_joining_undoes_splitting(s: Seq<char>, c: char)
    ensures
        joined(pieces(s, Cut::At(c)), seq![c]) == s,
    decreases s.len(),
{
    let cut = Cut::At(c);
    if s.len() == 0 {
        assert(joined(pieces(s, cut), seq![c]) =~= s);
    } else {
        let t = s.drop_last();
        let p = pieces(t, cut);
        law_joining_undoes_splitting(t, c);
        lemma_pieces_nonempty(t, cut);
        assert(t.push(s.last()) =~= s);
        if cuts(cut, s.last()) {
            assert(p.push(Seq::<char>::empty()).drop_last() =~= p);
            assert(joined(pieces(s, cut), seq![c]) =~= s);
        } else {
            let q = p.drop_last().push(p.last().push(s.last()));
            assert(q.drop_last() =~= p.drop_last());
            assert(joined(q, seq![c]) =~= s);
        }
    }
}

/// Taking the quotes out turns each double quote into an apostrophe and touches
/// nothing else.
pub proof fn law_unquoting_turns_quotes_into_apostrophes(s: Seq<char>)
    ensures
        unquoted(s).len() == s.len(),
        forall|i: int|
            0 <= i < s.len() ==> #[trigger] unquoted(s)[i] == if s[i] == '"' {
                '\''
            } else {
                s[i]
            },
        !unquoted(s).contains('"'),
        !s.contains('"') ==> unquoted(s) == s,
{
    if !s.contains('"') {
        assert forall|i: int| 0 <= i < s.len() implies unquoted(s)[i] == s[i] by {
            assert(s.contains(s[i]));
        }
        assert(unquoted(s) =~= s);
    }
}

/// A number reads back from its digits: they are digits all, none too many, and
/// their value is the number.
pub proof fn law_decimal_reads_back(n: nat)
    ensures
        decimal(n).len() > 0,
        all_digits(decimal(n)),
        number(decimal(n)) == n,
        n > 0 ==> decimal(n)[0] != '0',
    decreases n,
{
    if n >= 10 {
        let t = decimal(n / 10);
        law_decimal_reads_back(n / 10);
        assert(decimal(n).drop_last() =~= t);
        assert forall|i: int| 0 <= i < decimal(n).len() implies digit_value(
            #[trigger] decimal(n)[i],
        ) < 10 by {
            if i < t.len() {
                assert(digit_value(t[i]) < 10);
            }
        }
        assert(decimal(n)[0] == t[0]);
    } else {
        let d = decimal(n);
        assert(d.drop_last() =~= Seq::<char>::empty());
        assert(number(d.drop_last()) == 0);
        assert(digit_value(d[0]) == n);
    }
}

/// The value of a row of digits: one digit more makes it ten times as much and
/// that digit.
pub proof fn law_a_digit_counts_tenfold(s: Seq<char>, c: char)
    requires
        '0' <= c <= '9',
    ensures
        number(Seq::empty()) == 0,
        number(s.push(c)) == 10 * number(s) + (c as u32 - 48),
{
    assert(s.push(c).drop_last() =~= s);
}

/// A size is read from its digits, with or without a plus sign before them, and
/// from nothing else.
pub proof fn law_sizes_read_back(n: usize, s: Seq<char>)
    ensures
        parsed_usize(decimal(n as nat)) == Some(n),
        parsed_usize(seq!['+'] + decimal(n as nat)) == Some(n),
        parsed_usize(s) is Some ==> s.len() > 0 && (forall|i: int|
            0 <= i < s.len() ==> '0' <= #[trigger] s[i] <= '9' || (i == 0 && s[i] == '+')) && s
            != seq!['+'],
{
    let d = decimal(n as nat);
    law_decimal_reads_back(n as nat);
    assert(digit_value(d[0]) < 10);
    assert(unsigned_digits(d) == d);
    assert((seq!['+'] + d).skip(1) =~= d);
    if parsed_usize(s) is Some {
        let u = unsigned_digits(s);
        assert forall|i: int| 0 <= i < s.len() implies '0' <= #[trigger] s[i] <= '9' || (i == 0
            && s[i] == '+') by {
            if s[0] == '+' {
                if i > 0 {
                    assert(digit_value(u[i - 1]) < 10);
                }
            } else {
                assert(digit_value(u[i]) < 10);
            }
        }
    }
}

/// A negative number is written as a minus sign and its size; another one as its
/// digits.
pub proof fn law_signed_numbers(n: nat)
    ensures
        signed_decimal(n as int) == decimal(n),
        n > 0 ==> signed_decimal(-n) == seq!['-'] + decimal(n),
{
    reveal_strlit("-");
    assert("-"@ =~= seq!['-']);
}

/// Padding adds spaces at the end up to the width, and cuts nothing off.
pub proof fn law_padding_adds_spaces_at_the_end(s: Seq<char>, width: nat)
    ensures
        padded(s, width).len() == if s.len() < width {
            width
        } else {
            s.len()
        },
        padded(s, width).take(s.len() as int) == s,
        forall|i: int|
            s.len() <= i < padded(s, width).len() ==> #[trigger] padded(s, width)[i] == ' ',
{
    assert(padded(s, width).take(s.len() as int) =~= s);
}

/// The first character in which two texts differ decides which comes first, and
/// a text comes before its continuations.
pub proof fn law_first_difference_decides(
    p: Seq<char>,
    x: char,
    y: char,
    u: Seq<char>,
    v: Seq<char>,
)
    ensures
        x != y ==> before(p + seq![x] + u, p + seq![y] + v) == (x < y),
        before(p, p + seq![x] + u),
        !before(p + u, p),
    decreases p.len(),
{
    if p.len() == 0 {
        assert((p + seq![x] + u)[0] == x);
        assert((p + seq![y] + v)[0] == y);
    } else {
        let t = p.drop_first();
        law_first_difference_decides(t, x, y, u, v);
        assert((p + seq![x] + u).drop_first() =~= t + seq![x] + u);
        assert((p + seq![y] + v).drop_first() =~= t + seq![y] + v);
        assert((p + u).drop_first() =~= t + u);
    }
}

/// A prefix and a suffix are what the words say, and a text stands in another
/// wherever the two sides can be filled up.
pub proof fn law_parts_of_a_text(a: Seq<char>, b: Seq<char>, pat: Seq<char>)
    ensures
        starts_with(pat + b, pat),
        ends_with(a + pat, pat),
        contains_text(a + pat + b, pat),
        starts_with(a, pat) ==> a == pat + a.skip(pat.len() as int),
        ends_with(a, pat) ==> a == a.take(a.len() - pat.len()) + pat,
{
    assert((pat + b).subrange(0, pat.len() as int) =~= pat);
    assert((a + pat).subrange(a.len() as int, (a.len() + pat.len()) as int) =~= pat);
    assert((a + pat + b).subrange(a.len() as int, (a.len() + pat.len()) as int) =~= pat);
    assert(occurs_at(a + pat + b, pat, a.len() as int));
    if starts_with(a, pat) {
        assert(a =~= a.subrange(0, pat.len() as int) + a.skip(pat.len() as int));
    }
    if ends_with(a, pat) {
        assert(a =~= a.take(a.len() - pat.len()) + a.subrange(a.len() - pat.len(), a.len() as int));
    }
}

/// Digits alone give their value, however many zeros are before it, unless it is
/// more than a size can hold.
pub proof fn law_digits_give_their_value(s: Seq<char>)
    requires
        s.len() > 0,
        forall|i: int| 0 <= i < s.len() ==> '0' <= #[trigger] s[i] <= '9',
    ensures
        number(s) <= usize::MAX ==> parsed_usize(s) == Some(number(s) as usize),
        number(s) > usize::MAX ==> parsed_usize(s) is None,
        parsed_usize(seq!['+'] + s) == parsed_usize(s),
{
    assert('0' <= s[0] <= '9');
    assert(all_digits(s));
    assert((seq!['+'] + s).skip(1) =~= s);
}

/// What is read of strings in lists, options and results is the strings' own
/// text.
pub proof fn law_strings_are_read_as_texts(v: Seq<String>, s: String, i: int)
    ensures
        texts(v).len() == v.len(),
        0 <= i < v.len() ==> texts(v)[i] == v[i]@,
        opt_text(Some(s)) == Some(s@),
        opt_text(None) is None,
        answer(Ok(s)) == Ok::<Seq<char>, Seq<char>>(s@),
        answer(Err(s)) == Err::<Seq<char>, Seq<char>>(s@),
        verdict(Err(s)) == Err::<(), Seq<char>>(s@),
        verdict(Ok(())) is Ok,
        or_else(Some(s@), Seq::empty()) == s@,
        or_else(None, s@) == s@,
{
}

} // verus!
