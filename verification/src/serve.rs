//! A local web UI: what a request means and what is answered.
//!
//! The surface is a handful of routes on localhost. The caller listens, reads
//! and writes; the parsing, the routing and the payloads are here.
//!
//! Everything except the agent works **without an API key**: the program map,
//! English search, the call graph, and the whole-file-versus-subgraph
//! comparison are all computed locally. That is deliberate: the claim this
//! project makes is about context size, and you should be able to see it
//! measured before spending anything to test it.

use crate::json;
use crate::json::Json;
use crate::payload;
use crate::text;
use vstd::prelude::*;

verus! {

// ------------------------------------------------------------------- request

/// The first two words of a request line: the method and the target.
pub open spec fn request_line(line: Seq<char>) -> (Seq<char>, Seq<char>) {
    let w = text::words(line, text::Cut::White);
    (
        if w.len() > 0 {
            w[0]
        } else {
            Seq::empty()
        },
        if w.len() > 1 {
            w[1]
        } else {
            "/"@
        },
    )
}

pub fn parse_request_line(line: &str) -> (r: (String, String))
    ensures
        (r.0@, r.1@) == request_line(line@),
{
    let w = text::words_of(line, text::Cut::White);
    let ghost all = text::texts(w@);
    assert(all.len() == w@.len());
    let method = if w.len() > 0 {
        assert(all[0] == w@[0]@);
        w[0].clone()
    } else {
        String::new()
    };
    let target = if w.len() > 1 {
        assert(all[1] == w@[1]@);
        w[1].clone()
    } else {
        "/".to_owned()
    };
    (method, target)
}

/// The line ends the headers.
pub open spec fn ends_headers(line: Seq<char>) -> bool {
    text::trim(line).len() == 0
}

/// Whether a line ends the headers.
pub fn is_last_header(line: &str) -> (r: bool)
    ensures
        r == ends_headers(line@),
{
    text::trimmed(line).as_str().is_empty()
}

/// The length of the body that a header in lower case announces; `None` for
/// another header. What is not a number counts as 0.
pub open spec fn length_in(h: Seq<char>) -> Option<usize> {
    if text::starts_with(h, "content-length:"@) {
        match text::parsed_usize(text::trim(h.skip("content-length:"@.len() as int))) {
            Some(n) => Some(n),
            None => Some(0),
        }
    } else {
        None
    }
}

/// The length of the body that a header announces, in whatever case.
pub open spec fn announced(header: Seq<char>) -> Option<usize> {
    length_in(text::lowered(header))
}

/// The length of the body: what the last header says that announces one.
pub open spec fn content_length(headers: Seq<Seq<char>>) -> usize
    decreases headers.len(),
{
    if headers.len() == 0 {
        0
    } else {
        match announced(headers.last()) {
            Some(n) => n,
            None => content_length(headers.drop_last()),
        }
    }
}

/// The length of the body that a header in lower case announces.
pub fn read_length(h: &str) -> (r: Option<usize>)
    ensures
        r == length_in(h@),
{
    if !text::begins(h, "content-length:") {
        return None;
    }
    let v = text::chars_of(h);
    let p = text::chars_of("content-length:");
    let rest = text::string_of(&v, p.len(), v.len());
    assert(v@.subrange(p@.len() as int, v@.len() as int) =~= h@.skip(p@.len() as int));
    match text::parse_usize(&text::trimmed(&rest)) {
        Some(n) => Some(n),
        None => Some(0),
    }
}

pub fn body_length(headers: &Vec<String>) -> (r: usize)
    ensures
        r == content_length(text::texts(headers@)),
{
    let ghost all = text::texts(headers@);
    let mut n: usize = headers.len();
    assert(all.take(n as int) =~= all);
    while n > 0
        invariant
            n <= headers@.len(),
            all == text::texts(headers@),
            content_length(all) == content_length(all.take(n as int)),
        decreases n,
    {
        assert(all.take(n as int).last() == headers@[n - 1]@);
        assert(all.take(n as int).drop_last() =~= all.take(n - 1));
        match read_length(&headers[n - 1].to_lowercase()) {
            Some(len) => {
                return len;
            },
            None => {},
        }
        n = n - 1;
    }
    0
}

/// The text of a body.
pub fn body_text(bytes: &[u8]) -> (r: String)
    ensures
        r@ == text::lossy(bytes@),
        vstd::utf8::valid_utf8(bytes@) ==> r@ == vstd::utf8::decode_utf8(bytes@),
{
    text::text_of_bytes(bytes)
}

/// A text before and after the first `c`; `None` if there is none.
pub open spec fn split_once(s: Seq<char>, c: char) -> Option<(Seq<char>, Seq<char>)> {
    let i = text::next_char(s, c, 0);
    if i < s.len() {
        Some((s.take(i), s.skip(i + 1)))
    } else {
        None
    }
}

fn cut_once(s: &str, c: char) -> (r: Option<(String, String)>)
    ensures
        match r {
            Some((a, b)) => split_once(s@, c) == Some((a@, b@)),
            None => split_once(s@, c) is None,
        },
{
    let v = text::chars_of(s);
    let n: usize = v.len();
    let i: usize = text::find_from(&v, c, 0);
    if i >= n {
        return None;
    }
    assert(v@.subrange(0, i as int) =~= s@.take(i as int));
    assert(v@.subrange(i + 1, n as int) =~= s@.skip(i + 1));
    Some((text::string_of(&v, 0, i), text::string_of(&v, i + 1, n)))
}

/// The path and the query of a target.
pub open spec fn target_parts(target: Seq<char>) -> (Seq<char>, Seq<char>) {
    match split_once(target, '?') {
        Some((p, q)) => (p, q),
        None => (target, Seq::empty()),
    }
}

pub fn split_target(target: &str) -> (r: (String, String))
    ensures
        (r.0@, r.1@) == target_parts(target@),
{
    match cut_once(target, '?') {
        Some((p, q)) => (p, q),
        None => (target.to_owned(), String::new()),
    }
}

// --------------------------------------------------------------------- query

/// The value of a hexadecimal digit.
pub open spec fn hex_value(b: u8) -> Option<u8> {
    if 0x30 <= b <= 0x39 {
        Some((b - 0x30) as u8)
    } else if 0x61 <= b <= 0x66 {
        Some((b - 0x61 + 10) as u8)
    } else if 0x41 <= b <= 0x46 {
        Some((b - 0x41 + 10) as u8)
    } else {
        None
    }
}

/// The byte that two characters of an escape stand for: two digits, or a plus
/// sign and a digit. Anything else is a space.
pub open spec fn escaped(a: u8, b: u8) -> u8 {
    match (hex_value(a), hex_value(b)) {
        (Some(x), Some(y)) => (x * 16 + y) as u8,
        (None, Some(y)) => if a == 0x2b {
            y
        } else {
            0x20
        },
        _ => 0x20,
    }
}

/// The bytes from `i` on with escapes resolved: `%` and two characters, where
/// both are there, and `+` for a space.
pub open spec fn unescaped(bytes: Seq<u8>, i: int) -> Seq<u8>
    decreases bytes.len() - i,
{
    if i < 0 || i >= bytes.len() {
        Seq::empty()
    } else if bytes[i] == 0x25 && i + 2 < bytes.len() {
        seq![escaped(bytes[i + 1], bytes[i + 2])] + unescaped(bytes, i + 3)
    } else if bytes[i] == 0x2b {
        seq![0x20u8] + unescaped(bytes, i + 1)
    } else {
        seq![bytes[i]] + unescaped(bytes, i + 1)
    }
}

/// A text with its escapes resolved.
pub open spec fn decoded(s: Seq<char>) -> Seq<char> {
    text::lossy(unescaped(vstd::utf8::encode_utf8(s), 0))
}

fn hex_of(b: u8) -> (r: Option<u8>)
    ensures
        r == hex_value(b),
        r matches Some(v) ==> v < 16,
{
    if 0x30 <= b && b <= 0x39 {
        Some(b - 0x30)
    } else if 0x61 <= b && b <= 0x66 {
        Some(b - 0x61 + 10)
    } else if 0x41 <= b && b <= 0x46 {
        Some(b - 0x41 + 10)
    } else {
        None
    }
}

fn escape_of(a: u8, b: u8) -> (r: u8)
    ensures
        r == escaped(a, b),
{
    match (hex_of(a), hex_of(b)) {
        (Some(x), Some(y)) => x * 16 + y,
        (None, Some(y)) => if a == 0x2b {
            y
        } else {
            0x20
        },
        _ => 0x20,
    }
}

fn unescape(bytes: &[u8]) -> (r: Vec<u8>)
    ensures
        r@ == unescaped(bytes@, 0),
{
    let n: usize = bytes.len();
    let mut out: Vec<u8> = Vec::new();
    let mut i: usize = 0;
    assert(out@ + unescaped(bytes@, 0) =~= unescaped(bytes@, 0));
    while i < n
        invariant
            i <= n,
            n == bytes@.len(),
            out@ + unescaped(bytes@, i as int) == unescaped(bytes@, 0),
        decreases n - i,
    {
        let ghost before = out@;
        let ghost from = i as int;
        let c: u8 = bytes[i];
        if c == 0x25 && n - i > 2 {
            let e: u8 = escape_of(bytes[i + 1], bytes[i + 2]);
            out.push(e);
            i = i + 3;
            assert(out@ + unescaped(bytes@, i as int) =~= before + (seq![e] + unescaped(
                bytes@,
                i as int,
            )));
        } else if c == 0x2b {
            out.push(0x20);
            i = i + 1;
            assert(out@ + unescaped(bytes@, i as int) =~= before + (seq![0x20u8] + unescaped(
                bytes@,
                i as int,
            )));
        } else {
            out.push(c);
            i = i + 1;
            assert(out@ + unescaped(bytes@, i as int) =~= before + (seq![c] + unescaped(
                bytes@,
                i as int,
            )));
        }
        assert(before + unescaped(bytes@, from) == unescaped(bytes@, 0));
    }
    assert(out@ + unescaped(bytes@, i as int) =~= out@);
    out
}

/// Resolve the escapes of a query.
pub fn urldecode(s: &str) -> (r: String)
    ensures
        r@ == decoded(s@),
        vstd::utf8::valid_utf8(unescaped(vstd::utf8::encode_utf8(s@), 0)) ==> r@
            == vstd::utf8::decode_utf8(unescaped(vstd::utf8::encode_utf8(s@), 0)),
{
    let out = unescape(s.as_bytes());
    text::text_of_bytes(&out)
}

/// The value of the first pair with that key, from `i` on.
pub open spec fn value_of(pairs: Seq<Seq<char>>, key: Seq<char>, i: int) -> Option<Seq<char>>
    decreases pairs.len() - i,
{
    if i < 0 || i >= pairs.len() {
        None
    } else {
        match split_once(pairs[i], '=') {
            Some((k, v)) => if k == key {
                Some(decoded(v))
            } else {
                value_of(pairs, key, i + 1)
            },
            None => value_of(pairs, key, i + 1),
        }
    }
}

/// A parameter of a query.
pub open spec fn parameter(query: Seq<char>, key: Seq<char>) -> Option<Seq<char>> {
    value_of(text::pieces(query, text::Cut::At('&')), key, 0)
}

pub fn param(query: &str, key: &str) -> (r: Option<String>)
    ensures
        text::opt_text(r) == parameter(query@, key@),
{
    let pairs = text::split(query, text::Cut::At('&'));
    let ghost all = text::texts(pairs@);
    let mut i: usize = 0;
    while i < pairs.len()
        invariant
            i <= pairs@.len(),
            all == text::texts(pairs@),
            all == text::pieces(query@, text::Cut::At('&')),
            value_of(all, key@, 0) == value_of(all, key@, i as int),
        decreases pairs@.len() - i,
    {
        assert(all[i as int] == pairs@[i as int]@);
        match cut_once(&pairs[i], '=') {
            Some((k, v)) => {
                if text::same(&k, key) {
                    return Some(urldecode(&v));
                }
            },
            None => {},
        }
        i = i + 1;
    }
    None
}

// -------------------------------------------------------------------- routes

/// What a request asks for.
#[derive(Debug, Clone, Copy, PartialEq, Eq, Structural)]
pub enum Route {
    /// The page itself.
    Page,
    /// Whether there is a key. The agent route cannot answer this: an empty
    /// probe trips its goal check before it ever looks for a key.
    Status,
    /// The program map: what the model sees first, and what it costs.
    Program,
    /// English in, ranked buckets out.
    Find,
    /// The comparison that makes the claim testable.
    Context,
    /// Run every test in the program.
    Tests,
    /// Deterministic context sweep: no API calls, so it is free to re-run.
    Bench,
    /// Hold size constant, vary fan-out: the variable subgraph cost responds to.
    Fanout,
    /// Per-bucket subgraph cost: shows that it tracks structure, not size.
    SubgraphCosts,
    /// The agent.
    Edit,
    /// Run one prompt through both arms and record everything.
    Experiment,
    /// Everything recorded so far, newest first.
    Runs,
    /// Load a different program into the UI.
    Open,
    NotFound,
}

/// What a method and a path ask for.
pub open spec fn routed(method: Seq<char>, path: Seq<char>) -> Route {
    if method == "GET"@ {
        if path == "/"@ {
            Route::Page
        } else if path == "/api/status"@ {
            Route::Status
        } else if path == "/api/program"@ {
            Route::Program
        } else if path == "/api/find"@ {
            Route::Find
        } else if path == "/api/context"@ {
            Route::Context
        } else if path == "/api/tests"@ {
            Route::Tests
        } else if path == "/api/bench"@ {
            Route::Bench
        } else if path == "/api/fanout"@ {
            Route::Fanout
        } else if path == "/api/subgraph_costs"@ {
            Route::SubgraphCosts
        } else if path == "/api/runs"@ {
            Route::Runs
        } else {
            Route::NotFound
        }
    } else if method == "POST"@ {
        if path == "/api/edit"@ {
            Route::Edit
        } else if path == "/api/experiment"@ {
            Route::Experiment
        } else if path == "/api/open"@ {
            Route::Open
        } else {
            Route::NotFound
        }
    } else {
        Route::NotFound
    }
}

pub fn route(method: &str, path: &str) -> (r: Route)
    ensures
        r == routed(method@, path@),
{
    if text::same(method, "GET") {
        if text::same(path, "/") {
            Route::Page
        } else if text::same(path, "/api/status") {
            Route::Status
        } else if text::same(path, "/api/program") {
            Route::Program
        } else if text::same(path, "/api/find") {
            Route::Find
        } else if text::same(path, "/api/context") {
            Route::Context
        } else if text::same(path, "/api/tests") {
            Route::Tests
        } else if text::same(path, "/api/bench") {
            Route::Bench
        } else if text::same(path, "/api/fanout") {
            Route::Fanout
        } else if text::same(path, "/api/subgraph_costs") {
            Route::SubgraphCosts
        } else if text::same(path, "/api/runs") {
            Route::Runs
        } else {
            Route::NotFound
        }
    } else if text::same(method, "POST") {
        if text::same(path, "/api/edit") {
            Route::Edit
        } else if text::same(path, "/api/experiment") {
            Route::Experiment
        } else if text::same(path, "/api/open") {
            Route::Open
        } else {
            Route::NotFound
        }
    } else {
        Route::NotFound
    }
}

// ------------------------------------------------------------------ response

/// What is answered to a request.
#[derive(Debug)]
pub struct Answer {
    pub status: &'static str,
    pub ctype: &'static str,
    pub payload: String,
}

pub fn json_ok(v: &Json) -> (r: Answer)
    ensures
        r.status@ == "200 OK"@,
        r.ctype@ == "application/json"@,
        r.payload@ == json::json_text(v@),
{
    Answer { status: "200 OK", ctype: "application/json", payload: json::text_of(v) }
}

pub fn json_err(message: &str) -> (r: Answer)
    ensures
        r.status@ == "200 OK"@,
        r.ctype@ == "application/json"@,
        r.payload@ == json::json_text(payload::error_object(message@)),
{
    json_ok(&payload::error(message))
}

/// The page itself.
pub fn page(html: String) -> (r: Answer)
    ensures
        r.status@ == "200 OK"@,
        r.ctype@ == "text/html; charset=utf-8"@,
        r.payload == html,
{
    Answer { status: "200 OK", ctype: "text/html; charset=utf-8", payload: html }
}

pub fn not_found() -> (r: Answer)
    ensures
        r.status@ == "404 Not Found"@,
        r.ctype@ == "text/plain"@,
        r.payload@ == "not found"@,
{
    Answer { status: "404 Not Found", ctype: "text/plain", payload: "not found".to_owned() }
}

/// The head of a response. Nothing is to be cached.
pub open spec fn response_head(status: Seq<char>, ctype: Seq<char>, length: nat) -> Seq<char> {
    "HTTP/1.1 "@ + status + "\r\nContent-Type: "@ + ctype + "\r\nContent-Length: "@
        + text::decimal(length) + "\r\nCache-Control: no-store\r\n\r\n"@
}

/// The head of the response to a request.
pub fn head_of(answer: &Answer) -> (r: String)
    ensures
        r@ == response_head(answer.status@, answer.ctype@, text::size(answer.payload@)),
{
    let mut s = "HTTP/1.1 ".to_owned();
    s.append(answer.status);
    s.append("\r\nContent-Type: ");
    s.append(answer.ctype);
    s.append("\r\nContent-Length: ");
    s.append(&text::decimal_of(text::byte_len(&answer.payload) as u64));
    s.append("\r\nCache-Control: no-store\r\n\r\n");
    s
}

// ---------------------------------------------------------------------- laws

/// A text without `%` and `+` decodes to itself.
pub proof fn law_plain_text_decodes_to_itself(s: Seq<char>)
    requires
        !s.contains('%'),
        !s.contains('+'),
    ensures
        unescaped(vstd::utf8::encode_utf8(s), 0) == vstd::utf8::encode_utf8(s),
        vstd::utf8::valid_utf8(unescaped(vstd::utf8::encode_utf8(s), 0)),
        vstd::utf8::decode_utf8(unescaped(vstd::utf8::encode_utf8(s), 0)) == s,
{
    let bytes = vstd::utf8::encode_utf8(s);
    lemma_no_escape_bytes(s);
    lemma_plain(bytes, 0);
    assert(bytes.skip(0) =~= bytes);
    vstd::utf8::encode_utf8_valid_utf8(s);
    vstd::utf8::encode_utf8_decode_utf8(s);
}

proof fn lemma_no_escape_bytes(s: Seq<char>)
    requires
        !s.contains('%'),
        !s.contains('+'),
    ensures
        forall|k: int|
            0 <= k < vstd::utf8::encode_utf8(s).len() ==> #[trigger] vstd::utf8::encode_utf8(s)[k]
                != 0x25 && vstd::utf8::encode_utf8(s)[k] != 0x2b,
    decreases s.len(),
{
    if s.len() > 0 {
        let rest = s.drop_first();
        assert forall|c: char| rest.contains(c) implies s.contains(c) by {
            let i = choose|i: int| 0 <= i < rest.len() && rest[i] == c;
            assert(s[i + 1] == c);
        }
        lemma_no_escape_bytes(rest);
        assert(s.contains(s[0]));
        lemma_no_escape_scalar(s[0]);
        let first = vstd::utf8::encode_scalar(s[0] as u32);
        let more = vstd::utf8::encode_utf8(rest);
        assert forall|k: int| 0 <= k < (first + more).len() implies #[trigger] (first + more)[k]
            != 0x25 && (first + more)[k] != 0x2b by {
            if k < first.len() {
                assert((first + more)[k] == first[k]);
            } else {
                assert((first + more)[k] == more[k - first.len()]);
            }
        }
    }
}

proof fn lemma_no_escape_scalar(c: char)
    requires
        c != '%',
        c != '+',
    ensures
        forall|k: int|
            0 <= k < vstd::utf8::encode_scalar(c as u32).len()
                ==> #[trigger] vstd::utf8::encode_scalar(c as u32)[k] != 0x25
                && vstd::utf8::encode_scalar(c as u32)[k] != 0x2b,
{
    let u = c as u32;
    assert(u <= 0x7f ==> (u & 0x7F) as u8 == u) by (bit_vector);
    assert(0xC0u8 | ((u >> 6) & 0x1F) as u8 >= 0x80) by (bit_vector);
    assert(0xE0u8 | ((u >> 12) & 0x0F) as u8 >= 0x80) by (bit_vector);
    assert(0xF0u8 | ((u >> 18) & 0x7) as u8 >= 0x80) by (bit_vector);
    assert(0x80u8 | (u & 0x3F) as u8 >= 0x80) by (bit_vector);
    assert(0x80u8 | ((u >> 6) & 0x3F) as u8 >= 0x80) by (bit_vector);
    assert(0x80u8 | ((u >> 12) & 0x3F) as u8 >= 0x80) by (bit_vector);
}

proof fn lemma_plain(bytes: Seq<u8>, i: int)
    requires
        0 <= i <= bytes.len(),
        forall|k: int| i <= k < bytes.len() ==> #[trigger] bytes[k] != 0x25 && bytes[k] != 0x2b,
    ensures
        unescaped(bytes, i) == bytes.skip(i),
    decreases bytes.len() - i,
{
    if i < bytes.len() {
        lemma_plain(bytes, i + 1);
        assert(bytes.skip(i) =~= seq![bytes[i]] + bytes.skip(i + 1));
    } else {
        assert(bytes.skip(i) =~= Seq::<u8>::empty());
    }
}

/// The first word of a request line is the method and the second the target; a
/// line without a second one asks for the root.
pub proof fn law_request_line_is_method_and_target(
    method: Seq<char>,
    target: Seq<char>,
    rest: Seq<char>,
)
    requires
        method.len() > 0,
        target.len() > 0,
        forall|i: int| 0 <= i < method.len() ==> !text::is_white(#[trigger] method[i]),
        forall|i: int| 0 <= i < target.len() ==> !text::is_white(#[trigger] target[i]),
    ensures
        request_line(method.push(' ') + (target.push(' ') + rest)) == (method, target),
        request_line(method) == (method, "/"@),
        request_line(Seq::empty()) == (Seq::<char>::empty(), "/"@),
{
    let cut = text::Cut::White;
    text::law_words_part_at_cuts(method, ' ', target.push(' ') + rest, cut);
    text::law_words_part_at_cuts(target, ' ', rest, cut);
    let w = text::words(method.push(' ') + (target.push(' ') + rest), cut);
    assert forall|i: int| 0 <= i < method.len() implies !text::cuts(cut, #[trigger] method[i]) by {}
    assert forall|i: int| 0 <= i < target.len() implies !text::cuts(cut, #[trigger] target[i]) by {}
    assert(text::words(method, cut) == seq![method]);
    assert(text::words(target, cut) == seq![target]);
    assert(w =~= seq![method] + (seq![target] + text::words(rest, cut)));
    assert(w[0] == method && w[1] == target);
}

/// The headers end at a line of white space.
pub proof fn law_headers_end_at_a_blank_line(line: Seq<char>, i: int)
    ensures
        (forall|k: int| 0 <= k < line.len() ==> text::is_white(#[trigger] line[k]))
            ==> ends_headers(line),
        0 <= i < line.len() && !text::is_white(line[i]) ==> !ends_headers(line),
{
    text::law_trimmed_text_is_a_stretch(line);
    let (a, b) = choose|a: int, b: int|
        {
            &&& 0 <= a <= b <= line.len()
            &&& text::trim(line) == #[trigger] line.subrange(a, b)
            &&& forall|k: int|
                0 <= k < a || b <= k < line.len() ==> text::is_white(#[trigger] line[k])
            &&& a < b ==> !text::is_white(line[a]) && !text::is_white(line[b - 1])
        };
}

/// A header that announces the length of the body gives the number that stands
/// behind its name, white space aside, and nothing where there is no number; any
/// other header announces nothing.
pub proof fn law_length_header_is_read(n: usize, h: Seq<char>)
    ensures
        length_in("content-length:"@ + text::decimal(n as nat)) == Some(n),
        length_in("content-length:"@ + (seq![' '] + text::decimal(n as nat))) == Some(n),
        !text::starts_with(h, "content-length:"@) ==> length_in(h) is None,
        text::starts_with(h, "content-length:"@) ==> length_in(h) is Some,
{
    let key = "content-length:"@;
    let d = text::decimal(n as nat);
    let spaced = seq![' '] + d;
    text::law_sizes_read_back(n, Seq::empty());
    text::law_decimal_reads_back(n as nat);
    text::law_parts_of_a_text(Seq::empty(), d, key);
    text::law_parts_of_a_text(Seq::empty(), spaced, key);
    assert((key + d).skip(key.len() as int) =~= d);
    assert((key + spaced).skip(key.len() as int) =~= spaced);
    assert forall|i: int| 0 <= i < d.len() implies !text::is_white(#[trigger] d[i]) by {
        assert(text::digit_value(d[i]) < 10);
    }
    assert(!text::is_white(d[0]) && !text::is_white(d[d.len() - 1]));
    assert(text::trim_start(d) == d);
    assert(text::trim(d) == d);
    assert(spaced.drop_first() =~= d);
    assert(text::trim_start(spaced) == d);
    assert(text::trim(spaced) == d);
}

/// The last header that announces a length counts, and without one the body is
/// empty.
pub proof fn law_last_announced_length_counts(headers: Seq<Seq<char>>, h: Seq<char>)
    ensures
        content_length(Seq::empty()) == 0,
        announced(h) matches Some(n) ==> content_length(headers.push(h)) == n,
        announced(h) is None ==> content_length(headers.push(h)) == content_length(headers),
        announced(h) == length_in(text::lowered(h)),
{
    assert(headers.push(h).drop_last() =~= headers);
}

/// Splitting parts a text at the first separator and takes the separator out;
/// a text without one is not split.
pub proof fn law_split_is_at_the_first(a: Seq<char>, c: char, b: Seq<char>)
    requires
        !a.contains(c),
    ensures
        split_once(a.push(c) + b, c) == Some((a, b)),
        split_once(a, c) is None,
{
    let s = a.push(c) + b;
    text::law_next_char_is_the_first(s, c, 0);
    text::law_next_char_is_the_first(a, c, 0);
    let i = text::next_char(s, c, 0);
    assert(s[a.len() as int] == c);
    if i < a.len() {
        assert(s[i] == a[i]);
        assert(a.contains(a[i]));
    }
    assert(i == a.len());
    assert(s.take(i) =~= a);
    assert(s.skip(i + 1) =~= b);
    let j = text::next_char(a, c, 0);
    if j < a.len() {
        assert(a.contains(a[j]));
    }
}

/// A target is the path up to the first question mark and the query behind it.
pub proof fn law_query_follows_the_question_mark(path: Seq<char>, query: Seq<char>)
    requires
        !path.contains('?'),
    ensures
        target_parts(path.push('?') + query) == (path, query),
        target_parts(path) == (path, Seq::<char>::empty()),
{
    law_split_is_at_the_first(path, '?', query);
}

/// The two hexadecimal digits of a byte, in either case, stand for the byte.
pub proof fn law_escape_stands_for_its_byte(b: u8)
    ensures
        ({
            let hi = b / 16;
            let lo = b % 16;
            let small_hi = (if hi < 10 {
                48 + hi
            } else {
                87 + hi
            }) as u8;
            let small_lo = (if lo < 10 {
                48 + lo
            } else {
                87 + lo
            }) as u8;
            let large_hi = (if hi < 10 {
                48 + hi
            } else {
                55 + hi
            }) as u8;
            let large_lo = (if lo < 10 {
                48 + lo
            } else {
                55 + lo
            }) as u8;
            &&& escaped(small_hi, small_lo) == b
            &&& escaped(large_hi, large_lo) == b
            &&& escaped(small_hi, large_lo) == b
            &&& escaped(large_hi, small_lo) == b
        }),
{
}

/// What is no digit is no part of an escape: the escape is read as a space. A
/// plus sign may stand for a missing first digit.
pub proof fn law_bad_escape_is_a_space(a: u8, b: u8)
    ensures
        hex_value(a) is Some <==> 48 <= a <= 57 || 65 <= a <= 70 || 97 <= a <= 102,
        hex_value(b) is None ==> escaped(a, b) == 32,
        hex_value(a) is None && a != 43 ==> escaped(a, b) == 32,
        hex_value(b) matches Some(v) ==> escaped(43, b) == v,
{
}

/// Decoding goes from left to right: an escape gives its one byte, a plus sign a
/// space, any other byte itself; a percent sign without two bytes behind it is
/// such a byte.
pub proof fn law_decoding_goes_left_to_right(a: u8, b: u8, c: u8, rest: Seq<u8>)
    ensures
        unescaped(Seq::empty(), 0) == Seq::<u8>::empty(),
        unescaped(seq![0x25u8, a, b] + rest, 0) == seq![escaped(a, b)] + unescaped(rest, 0),
        unescaped(seq![0x2bu8] + rest, 0) == seq![0x20u8] + unescaped(rest, 0),
        c != 0x25 && c != 0x2b ==> unescaped(seq![c] + rest, 0) == seq![c] + unescaped(rest, 0),
        rest.len() < 2 ==> unescaped(seq![0x25u8] + rest, 0) == seq![0x25u8] + unescaped(rest, 0),
{
    let e = seq![0x25u8, a, b];
    lemma_decoding_on(e, rest, 3);
    assert((e + rest)[0] == 0x25 && (e + rest)[1] == a && (e + rest)[2] == b);
    let p = seq![0x2bu8];
    lemma_decoding_on(p, rest, 1);
    assert((p + rest)[0] == 0x2b);
    let q = seq![c];
    lemma_decoding_on(q, rest, 1);
    assert((q + rest)[0] == c);
    let h = seq![0x25u8];
    lemma_decoding_on(h, rest, 1);
    assert((h + rest)[0] == 0x25);
}

proof fn lemma_decoding_on(a: Seq<u8>, rest: Seq<u8>, i: int)
    requires
        a.len() <= i,
    ensures
        unescaped(a + rest, i) == unescaped(rest, i - a.len()),
    decreases a.len() + rest.len() - i,
{
    let s = a + rest;
    if i < s.len() {
        assert(s[i] == rest[i - a.len()]);
        if i + 1 < s.len() {
            assert(s[i + 1] == rest[i + 1 - a.len()]);
        }
        lemma_decoding_on(a, rest, i + 1);
        if i + 2 < s.len() {
            assert(s[i + 2] == rest[i + 2 - a.len()]);
            lemma_decoding_on(a, rest, i + 3);
        }
    }
}

/// The value of a parameter is that of the first pair with its key, decoded; a
/// piece without an equals sign is no pair.
pub proof fn law_first_parameter_counts(
    pairs: Seq<Seq<char>>,
    key: Seq<char>,
    value: Seq<char>,
    rest: Seq<Seq<char>>,
)
    requires
        !key.contains('='),
        forall|i: int|
            0 <= i < pairs.len() ==> !(#[trigger] pairs[i]).contains('=') || exists|
                k: Seq<char>,
                v: Seq<char>,
            |
                k != key && !k.contains('=') && pairs[i] == #[trigger] (k.push('=') + v),
    ensures
        value_of(pairs + seq![key.push('=') + value] + rest, key, 0) == Some(decoded(value)),
        value_of(pairs, key, 0) is None,
{
    lemma_parameter_passed(pairs, key, seq![key.push('=') + value] + rest, 0);
    lemma_parameter_passed(pairs, key, Seq::empty(), 0);
    assert(pairs + Seq::<Seq<char>>::empty() =~= pairs);
    let all = pairs + (seq![key.push('=') + value] + rest);
    assert(all =~= pairs + seq![key.push('=') + value] + rest);
    assert(all[pairs.len() as int] == key.push('=') + value);
    law_split_is_at_the_first(key, '=', value);
}

proof fn lemma_parameter_passed(
    pairs: Seq<Seq<char>>,
    key: Seq<char>,
    rest: Seq<Seq<char>>,
    i: int,
)
    requires
        0 <= i <= pairs.len(),
        forall|i: int|
            0 <= i < pairs.len() ==> !(#[trigger] pairs[i]).contains('=') || exists|
                k: Seq<char>,
                v: Seq<char>,
            |
                k != key && !k.contains('=') && pairs[i] == #[trigger] (k.push('=') + v),
    ensures
        value_of(pairs + rest, key, i) == value_of(pairs + rest, key, pairs.len() as int),
    decreases pairs.len() - i,
{
    if i < pairs.len() {
        let p = pairs[i];
        assert((pairs + rest)[i] == p);
        if !p.contains('=') {
            law_split_is_at_the_first(p, '=', Seq::empty());
        } else {
            let (k, v) = choose|k: Seq<char>, v: Seq<char>|
                k != key && !k.contains('=') && p == #[trigger] (k.push('=') + v);
            law_split_is_at_the_first(k, '=', v);
        }
        lemma_parameter_passed(pairs, key, rest, i + 1);
    }
}

/// A query of one pair gives the value under its key.
pub proof fn law_single_parameter_is_found(key: Seq<char>, value: Seq<char>)
    requires
        !key.contains('='),
        !key.contains('&'),
        !value.contains('&'),
    ensures
        parameter(key.push('=') + value, key) == Some(decoded(value)),
{
    let q = key.push('=') + value;
    let cut = text::Cut::At('&');
    assert forall|i: int| 0 <= i < q.len() implies !text::cuts(cut, #[trigger] q[i]) by {
        if i < key.len() {
            assert(key.contains(key[i]));
            assert(q[i] == key[i]);
        } else if i > key.len() {
            assert(value.contains(value[i - key.len() - 1]));
            assert(q[i] == value[i - key.len() - 1]);
        }
    }
    text::law_pieces_part_at_cuts(q, '&', Seq::empty(), cut);
    law_first_parameter_counts(Seq::empty(), key, value, Seq::empty());
    assert(Seq::<Seq<char>>::empty() + seq![q] + Seq::<Seq<char>>::empty() =~= seq![q]);
}

proof fn lemma_paths()
    ensures
        "/"@.len() == 1,
        "/api/status"@.len() == 11 && "/api/status"@[5] == 's',
        "/api/program"@.len() == 12 && "/api/program"@[5] == 'p',
        "/api/find"@.len() == 9 && "/api/find"@[5] == 'f',
        "/api/context"@.len() == 12 && "/api/context"@[5] == 'c',
        "/api/tests"@.len() == 10 && "/api/tests"@[5] == 't',
        "/api/bench"@.len() == 10 && "/api/bench"@[5] == 'b',
        "/api/fanout"@.len() == 11 && "/api/fanout"@[5] == 'f',
        "/api/subgraph_costs"@.len() == 19,
        "/api/runs"@.len() == 9 && "/api/runs"@[5] == 'r',
        "/api/edit"@.len() == 9 && "/api/edit"@[5] == 'e',
        "/api/experiment"@.len() == 15,
        "/api/open"@.len() == 9 && "/api/open"@[5] == 'o',
        "GET"@.len() == 3,
        "POST"@.len() == 4,
{
    reveal_strlit("/");
    reveal_strlit("/api/status");
    reveal_strlit("/api/program");
    reveal_strlit("/api/find");
    reveal_strlit("/api/context");
    reveal_strlit("/api/tests");
    reveal_strlit("/api/bench");
    reveal_strlit("/api/fanout");
    reveal_strlit("/api/subgraph_costs");
    reveal_strlit("/api/runs");
    reveal_strlit("/api/edit");
    reveal_strlit("/api/experiment");
    reveal_strlit("/api/open");
    reveal_strlit("GET");
    reveal_strlit("POST");
}

/// A request reaches a route exactly by the route's own method and path: what is
/// read is asked for with GET, and what changes something with POST.
pub proof fn law_paths_lead_to_their_routes(method: Seq<char>, path: Seq<char>)
    ensures
        ({
            let r = routed(method, path);
            &&& r == Route::Page <==> method == "GET"@ && path == "/"@
            &&& r == Route::Status <==> method == "GET"@ && path == "/api/status"@
            &&& r == Route::Program <==> method == "GET"@ && path == "/api/program"@
            &&& r == Route::Find <==> method == "GET"@ && path == "/api/find"@
            &&& r == Route::Context <==> method == "GET"@ && path == "/api/context"@
            &&& r == Route::Tests <==> method == "GET"@ && path == "/api/tests"@
            &&& r == Route::Bench <==> method == "GET"@ && path == "/api/bench"@
            &&& r == Route::Fanout <==> method == "GET"@ && path == "/api/fanout"@
            &&& r == Route::SubgraphCosts <==> method == "GET"@ && path == "/api/subgraph_costs"@
            &&& r == Route::Runs <==> method == "GET"@ && path == "/api/runs"@
            &&& r == Route::Edit <==> method == "POST"@ && path == "/api/edit"@
            &&& r == Route::Experiment <==> method == "POST"@ && path == "/api/experiment"@
            &&& r == Route::Open <==> method == "POST"@ && path == "/api/open"@
        }),
{
    lemma_paths();
}

/// The head of a response tells status, type and length, forbids caching, and
/// ends with an empty line.
pub proof fn law_head_tells_status_type_and_length(
    status: Seq<char>,
    ctype: Seq<char>,
    length: nat,
)
    ensures
        ({
            let h = response_head(status, ctype, length);
            &&& text::starts_with(h, "HTTP/1.1 "@ + status)
            &&& text::contains_text(h, "\r\nContent-Type: "@ + ctype + "\r\n"@)
            &&& text::contains_text(h, "\r\nContent-Length: "@ + text::decimal(length) + "\r\n"@)
            &&& text::ends_with(h, "\r\nCache-Control: no-store\r\n\r\n"@)
        }),
{
    let a = "HTTP/1.1 "@ + status;
    let b = "\r\nContent-Type: "@;
    let c = "\r\nContent-Length: "@;
    let d = text::decimal(length);
    let e = "\r\nCache-Control: no-store\r\n\r\n"@;
    let end = "\r\n"@;
    reveal_strlit("\r\n");
    reveal_strlit("\r\nContent-Length: ");
    reveal_strlit("\r\nCache-Control: no-store\r\n\r\n");
    let h = response_head(status, ctype, length);
    assert(h == a + b + ctype + c + d + e);
    text::law_parts_of_a_text(Seq::empty(), b + ctype + c + d + e, a);
    assert(h =~= a + (b + ctype + c + d + e));
    let typed = b + ctype + end;
    let i = a.len() as int;
    assert(h.subrange(i, i + typed.len()) =~= typed);
    assert(text::occurs_at(h, typed, i));
    let sized = c + d + end;
    let j = (a.len() + b.len() + ctype.len()) as int;
    assert(h.subrange(j, j + sized.len()) =~= sized);
    assert(text::occurs_at(h, sized, j));
    text::law_parts_of_a_text(a + b + ctype + c + d, Seq::empty(), e);
}

/// A query is read pair by pair: what stands before an ampersand is looked
/// through first, and what stands behind it only where the key was not there.
pub proof fn law_query_is_read_pair_by_pair(a: Seq<char>, b: Seq<char>, key: Seq<char>)
    ensures
        parameter(a, key) is Some ==> parameter(a.push('&') + b, key) == parameter(a, key),
        parameter(a, key) is None ==> parameter(a.push('&') + b, key) == parameter(b, key),
        decoded(a) == text::lossy(unescaped(vstd::utf8::encode_utf8(a), 0)),
{
    let cut = text::Cut::At('&');
    text::law_pieces_part_at_cuts(a, '&', b, cut);
    lemma_values_part(text::pieces(a, cut), text::pieces(b, cut), key, 0);
}

proof fn lemma_values_part(x: Seq<Seq<char>>, y: Seq<Seq<char>>, key: Seq<char>, i: int)
    requires
        0 <= i <= x.len(),
    ensures
        value_of(x, key, i) is Some ==> value_of(x + y, key, i) == value_of(x, key, i),
        value_of(x, key, i) is None ==> value_of(x + y, key, i) == value_of(y, key, 0),
    decreases x.len() - i,
{
    if i < x.len() {
        assert((x + y)[i] == x[i]);
        lemma_values_part(x, y, key, i + 1);
    } else {
        lemma_values_behind(x, y, key, 0);
    }
}

proof fn lemma_values_behind(x: Seq<Seq<char>>, y: Seq<Seq<char>>, key: Seq<char>, k: int)
    requires
        0 <= k <= y.len(),
    ensures
        value_of(x + y, key, x.len() + k) == value_of(y, key, k),
    decreases y.len() - k,
{
    if k < y.len() {
        assert((x + y)[x.len() + k] == y[k]);
        lemma_values_behind(x, y, key, k + 1);
    }
}

} // verus!
