//! The HTTP side of the server: routing of request lines, the request
//! header scan for `Content-Length`, and the framing of responses.

use vstd::prelude::*;
use vstd::string::*;
use vstd::utf8::encode_utf8;
use crate::text::{
    chars_of, has_prefix, same_chars, trimmed, trim, starts_with, decimal_bytes, push_bytes,
    push_decimal, parse_usize, parse_usize_chars, decimal_chars, lemma_decimal_chars,
    law_decimal_round_trip, is_unicode_whitespace, leading_whitespace, trailing_whitespace,
    lemma_leading_whitespace, lemma_trailing_whitespace,
};

verus! {

broadcast use vstd::string::group_string_axioms;

/// A static page the server answers with.
#[derive(Clone, Copy, Debug, PartialEq, Eq, Structural)]
pub enum Page {
    /// The start page.
    Index,
    /// The start page, answered after a delay.
    DelayedIndex,
    /// The page for every other request.
    NotFound,
}

/// What a request line asks for.
#[derive(Clone, Copy, Debug, PartialEq, Eq, Structural)]
pub enum Route {
    /// A document audit (`POST /api/audit`).
    AuditApi,
    /// A CORS preflight request (`OPTIONS`).
    CorsPreflight,
    /// A static page.
    Page(Page),
}

/// The route of a request line: an audit when the line begins with
/// `POST /api/audit`, a preflight when it begins with `OPTIONS`, and otherwise
/// the page that the line, trimmed of whitespace, names exactly.
pub open spec fn route_of(line: Seq<char>) -> Route {
    if starts_with(line, "POST /api/audit"@) {
        Route::AuditApi
    } else if starts_with(line, "OPTIONS"@) {
        Route::CorsPreflight
    } else if trim(line) == "GET / HTTP/1.1"@ {
        Route::Page(Page::Index)
    } else if trim(line) == "GET /sleep HTTP/1.1"@ {
        Route::Page(Page::DelayedIndex)
    } else {
        Route::Page(Page::NotFound)
    }
}

/// Routes a request line.
pub fn classify_request_line(line: &str) -> (r: Route)
    ensures
        r == route_of(line@),
{
    let v = chars_of(line);
    if has_prefix(&v, &chars_of("POST /api/audit")) {
        return Route::AuditApi;
    }
    if has_prefix(&v, &chars_of("OPTIONS")) {
        return Route::CorsPreflight;
    }
    let t = trimmed(&v);
    if same_chars(&t, &chars_of("GET / HTTP/1.1")) {
        Route::Page(Page::Index)
    } else if same_chars(&t, &chars_of("GET /sleep HTTP/1.1")) {
        Route::Page(Page::DelayedIndex)
    } else {
        Route::Page(Page::NotFound)
    }
}

/// The status line a page is served with.
pub open spec fn page_status_line(page: Page) -> Seq<char> {
    match page {
        Page::NotFound => "HTTP/1.1 404 NOT FOUND"@,
        _ => "HTTP/1.1 200 OK"@,
    }
}

/// The file that holds a page.
pub open spec fn page_file(page: Page) -> Seq<char> {
    match page {
        Page::NotFound => "static/404.html"@,
        _ => "static/index.html"@,
    }
}

/// The content type of every page.
pub open spec fn page_content_type() -> Seq<char> {
    "text/html; charset=utf-8"@
}

impl Page {
    /// The status line this page is served with.
    pub fn status_line(&self) -> (s: &'static str)
        ensures
            s@ == page_status_line(*self),
    {
        match self {
            Page::NotFound => "HTTP/1.1 404 NOT FOUND",
            _ => "HTTP/1.1 200 OK",
        }
    }

    /// The path of the file that holds this page.
    pub fn file_path(&self) -> (s: &'static str)
        ensures
            s@ == page_file(*self),
    {
        match self {
            Page::NotFound => "static/404.html",
            _ => "static/index.html",
        }
    }

    /// The content type this page is served with.
    pub fn content_type(&self) -> (s: &'static str)
        ensures
            s@ == page_content_type(),
    {
        "text/html; charset=utf-8"
    }

    /// How many seconds the server waits before it answers with this page.
    pub fn delay_seconds(&self) -> (secs: u64)
        ensures
            secs == (if *self == Page::DelayedIndex {
                2u64
            } else {
                0u64
            }),
    {
        match self {
            Page::DelayedIndex => 2,
            _ => 0,
        }
    }
}

/// The body served in place of a page whose file cannot be read.
pub fn missing_page_body() -> (s: &'static str)
    ensures
        s@ == "<h1>Error</h1>"@,
{
    "<h1>Error</h1>"
}

/// A response with a status line, a content type, the CORS header allowing
/// every origin, the body's length in bytes, and the body.
pub open spec fn response_bytes(status: Seq<u8>, content_type: Seq<u8>, body: Seq<u8>) -> Seq<u8> {
    status + "\r\nContent-Type: ".spec_bytes() + content_type
        + "\r\nAccess-Control-Allow-Origin: *\r\nContent-Length: ".spec_bytes() + decimal_bytes(
        body.len(),
    ) + "\r\n\r\n".spec_bytes() + body
}

/// Frames `body` with the status line `status` and the content type `content_type`.
fn framed_response(status: &str, content_type: &str, body: &[u8]) -> (r: Vec<u8>)
    ensures
        r@ == response_bytes(status.spec_bytes(), content_type.spec_bytes(), body@),
{
    let mut out: Vec<u8> = Vec::new();
    push_bytes(&mut out, status.as_bytes());
    push_bytes(&mut out, "\r\nContent-Type: ".as_bytes());
    push_bytes(&mut out, content_type.as_bytes());
    push_bytes(&mut out, "\r\nAccess-Control-Allow-Origin: *\r\nContent-Length: ".as_bytes());
    push_decimal(&mut out, body.len());
    push_bytes(&mut out, "\r\n\r\n".as_bytes());
    push_bytes(&mut out, body);
    proof {
        assert(out@ =~= response_bytes(status.spec_bytes(), content_type.spec_bytes(), body@));
    }
    out
}

/// The response that serves `page` with the bytes `contents`.
pub fn page_response(page: Page, contents: &[u8]) -> (r: Vec<u8>)
    ensures
        r@ == response_bytes(
            encode_utf8(page_status_line(page)),
            encode_utf8(page_content_type()),
            contents@,
        ),
{
    framed_response(page.status_line(), page.content_type(), contents)
}

/// The response that carries the JSON text `json` of an audit report.
pub fn audit_json_response(json: &[u8]) -> (r: Vec<u8>)
    ensures
        r@ == response_bytes(
            encode_utf8("HTTP/1.1 200 OK"@),
            encode_utf8("application/json"@),
            json@,
        ),
{
    framed_response("HTTP/1.1 200 OK", "application/json", json)
}

/// The answer to a CORS preflight request: no content, every origin allowed,
/// for the methods `POST`, `GET` and `OPTIONS` and the header `Content-Type`.
pub open spec fn preflight_text() -> Seq<char> {
    "HTTP/1.1 204 No Content\r\nAccess-Control-Allow-Origin: *\r\nAccess-Control-Allow-Methods: POST, GET, OPTIONS\r\nAccess-Control-Allow-Headers: Content-Type\r\nContent-Length: 0\r\n\r\n"@
}

/// The response to a CORS preflight request.
pub fn preflight_response() -> (r: Vec<u8>)
    ensures
        r@ == encode_utf8(preflight_text()),
{
    let mut out: Vec<u8> = Vec::new();
    push_bytes(
        &mut out,
        "HTTP/1.1 204 No Content\r\nAccess-Control-Allow-Origin: *\r\nAccess-Control-Allow-Methods: POST, GET, OPTIONS\r\nAccess-Control-Allow-Headers: Content-Type\r\nContent-Length: 0\r\n\r\n".as_bytes(),
    );
    out
}

/// An empty response with the status `status` (such as `429 Too Many Requests`).
pub fn error_status_response(status: &str) -> (r: Vec<u8>)
    ensures
        r@ == encode_utf8("HTTP/1.1 "@) + status.spec_bytes() + encode_utf8(
            "\r\nContent-Length: 0\r\n\r\n"@,
        ),
{
    let mut out: Vec<u8> = Vec::new();
    push_bytes(&mut out, "HTTP/1.1 ".as_bytes());
    push_bytes(&mut out, status.as_bytes());
    push_bytes(&mut out, "\r\nContent-Length: 0\r\n\r\n".as_bytes());
    proof {
        assert(out@ =~= encode_utf8("HTTP/1.1 "@) + status.spec_bytes() + encode_utf8(
            "\r\nContent-Length: 0\r\n\r\n"@,
        ));
    }
    out
}

/// The status a refused connection is answered with.
pub fn too_many_requests_status() -> (s: &'static str)
    ensures
        s@ == "429 Too Many Requests"@,
{
    "429 Too Many Requests"
}

/// `c` with an ASCII capital letter turned into its small letter.
pub open spec fn ascii_lowercase(c: char) -> char {
    if 'A' <= c <= 'Z' {
        ((c as u32) + 32) as char
    } else {
        c
    }
}

/// Whether a header line names `Content-Length`, in any case, followed by `:`.
/// This is what `line.to_lowercase().starts_with("content-length:")` decides:
/// no character outside ASCII lowercases to text that begins with one of these
/// ASCII characters, so the first fifteen characters of the line must be them
/// up to the case of their letters.
pub open spec fn is_content_length_header(line: Seq<char>) -> bool {
    line.len() >= 15 && forall|i: int|
        0 <= i < 15 ==> ascii_lowercase(#[trigger] line[i]) == "content-length:"@[i]
}

/// The number of characters of `s` before its first `:` (all of them when it has none).
pub open spec fn colon_free_len(s: Seq<char>) -> nat
    decreases s.len(),
{
    if s.len() == 0 || s[0] == ':' {
        0
    } else {
        1 + colon_free_len(s.drop_first())
    }
}

/// The value text of a `Content-Length` header line: what lies between its
/// first `:` (the fifteenth character) and the next `:` or the end, as
/// `line.split(':').nth(1)` gives it.
pub open spec fn content_length_field(line: Seq<char>) -> Seq<char> {
    let rest = line.skip(15);
    rest.take(colon_free_len(rest) as int)
}

/// The length a `Content-Length` header line announces: its trimmed value
/// read as a `usize`, or 0 when that fails.
pub open spec fn content_length_value(line: Seq<char>) -> usize {
    match parse_usize(trim(content_length_field(line))) {
        Some(n) => n,
        None => 0,
    }
}

/// One step of the header scan. A read of at most two bytes (the blank line
/// that ends the headers, or nothing) ends the scan; otherwise the scan goes
/// on with the length a `Content-Length` line announces, or with `current`.
pub open spec fn next_content_length(current: usize, bytes_read: usize, line: Seq<char>) -> Option<usize> {
    if bytes_read <= 2 {
        None
    } else if is_content_length_header(line) {
        Some(content_length_value(line))
    } else {
        Some(current)
    }
}

proof fn lemma_colon_free_len(s: Seq<char>, k: int)
    requires
        0 <= k <= s.len(),
        forall|j: int| 0 <= j < k ==> #[trigger] s[j] != ':',
        k == s.len() || s[k] == ':',
    ensures
        colon_free_len(s) == k,
    decreases k,
{
    if k > 0 {
        let r = s.drop_first();
        assert forall|j: int| 0 <= j < k - 1 implies #[trigger] r[j] != ':' by {
            assert(r[j] == s[j + 1]);
        }
        assert(s[0] != ':');
        if k < s.len() {
            assert(r[k - 1] == s[k]);
        }
        lemma_colon_free_len(r, k - 1);
    }
}

fn lower_ascii_char(c: char) -> (r: char)
    ensures
        r == ascii_lowercase(c),
{
    if 'A' <= c && c <= 'Z' {
        ((c as u32) + 32) as u8 as char
    } else {
        c
    }
}

/// Whether the characters `v` of a header line name `Content-Length`.
fn names_content_length(v: &Vec<char>) -> (r: bool)
    ensures
        r == is_content_length_header(v@),
{
    let name = chars_of("content-length:");
    proof {
        reveal_strlit("content-length:");
    }
    if v.len() < 15 {
        return false;
    }
    let mut i: usize = 0;
    while i < 15
        invariant
            15 <= v@.len(),
            name@ == "content-length:"@,
            name@.len() == 15,
            i <= 15,
            forall|j: int| 0 <= j < i ==> ascii_lowercase(#[trigger] v@[j]) == name@[j],
        decreases 15 - i,
    {
        if lower_ascii_char(v[i]) != name[i] {
            return false;
        }
        i = i + 1;
    }
    true
}

/// One step of the scan of request headers: given the length found so far,
/// the number of bytes the last read took and the line it gave, the length
/// to go on with, or `None` when the headers have ended.
pub fn scan_header_line(current: usize, bytes_read: usize, line: &str) -> (r: Option<usize>)
    ensures
        r == next_content_length(current, bytes_read, line@),
{
    if bytes_read <= 2 {
        return None;
    }
    let v = chars_of(line);
    if !names_content_length(&v) {
        return Some(current);
    }
    let ghost rest = v@.skip(15);
    let mut field: Vec<char> = Vec::new();
    let mut i: usize = 15;
    while i < v.len() && v[i] != ':'
        invariant
            15 <= i <= v@.len(),
            rest == v@.skip(15),
            field@ == rest.take(i - 15),
            forall|j: int| 0 <= j < i - 15 ==> #[trigger] rest[j] != ':',
        decreases v@.len() - i,
    {
        field.push(v[i]);
        proof {
            assert(rest.take(i - 15 + 1) =~= rest.take(i - 15).push(v@[i as int]));
        }
        i = i + 1;
    }
    proof {
        lemma_colon_free_len(rest, i - 15);
    }
    let value = trimmed(&field);
    match parse_usize_chars(&value) {
        Some(n) => Some(n),
        None => Some(0),
    }
}

/// A `Content-Length` header line that gives a length in decimal, as a
/// response of this server writes it, is read back as that length.
pub proof fn law_content_length_read_back(n: usize, current: usize, bytes_read: usize)
    requires
        bytes_read > 2,
    ensures
        next_content_length(current, bytes_read, "Content-Length: "@ + decimal_chars(n as nat) + "\r\n"@)
            == Some(n),
{
    reveal_strlit("Content-Length: ");
    reveal_strlit("content-length:");
    reveal_strlit("\r\n");
    let d = decimal_chars(n as nat);
    lemma_decimal_chars(n as nat);
    law_decimal_round_trip(n);
    let line = "Content-Length: "@ + d + "\r\n"@;
    assert(is_content_length_header(line)) by {
        assert forall|i: int| 0 <= i < 15 implies ascii_lowercase(#[trigger] line[i]) == "content-length:"@[i] by {
            assert(line[i] == "Content-Length: "@[i]);
        }
    }
    let rest = line.skip(15);
    assert(rest =~= seq![' '] + d + "\r\n"@);
    assert forall|j: int| 0 <= j < rest.len() implies #[trigger] rest[j] != ':' by {
        if 1 <= j < 1 + d.len() {
            assert(rest[j] == d[j - 1]);
        }
    }
    lemma_colon_free_len(rest, rest.len() as int);
    assert(rest.take(rest.len() as int) =~= rest);
    assert(content_length_field(line) == rest);
    lemma_leading_whitespace(rest, 1);
    let t = rest.skip(1);
    assert(t =~= d + "\r\n"@);
    assert(t[0] == d[0]);
    assert(leading_whitespace(t) == 0);
    assert(leading_whitespace(rest) == 1);
    assert forall|j: int| d.len() <= j < t.len() implies is_unicode_whitespace(#[trigger] t[j]) by {
    }
    lemma_trailing_whitespace(t, d.len() as int);
    assert(t.take(d.len() as int) =~= d);
    assert(d.last() == d[d.len() - 1]);
    assert(trailing_whitespace(d) == 0);
    assert(trim(rest) =~= d);
}

} // verus!
