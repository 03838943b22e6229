use rserver::http::{
    audit_json_response, classify_request_line, error_status_response, missing_page_body,
    page_response, preflight_response, scan_header_line, too_many_requests_status, Page, Route,
};

#[test]
fn audit_route() {
    assert_eq!(classify_request_line("POST /api/audit HTTP/1.1\r\n"), Route::AuditApi);
    assert_eq!(classify_request_line("POST /api/auditx"), Route::AuditApi);
    assert_eq!(classify_request_line("POST /api/aud"), Route::Page(Page::NotFound));
}

#[test]
fn preflight_route() {
    assert_eq!(classify_request_line("OPTIONS /api/audit HTTP/1.1\r\n"), Route::CorsPreflight);
    assert_eq!(classify_request_line("options /api/audit HTTP/1.1\r\n"), Route::Page(Page::NotFound));
}

#[test]
fn page_routes() {
    assert_eq!(classify_request_line("GET / HTTP/1.1\r\n"), Route::Page(Page::Index));
    assert_eq!(classify_request_line("  GET / HTTP/1.1 \t\r\n"), Route::Page(Page::Index));
    assert_eq!(classify_request_line("\u{3000}GET / HTTP/1.1\u{a0}"), Route::Page(Page::Index));
    assert_eq!(classify_request_line("GET /sleep HTTP/1.1\r\n"), Route::Page(Page::DelayedIndex));
    assert_eq!(classify_request_line("GET /index.html HTTP/1.1\r\n"), Route::Page(Page::NotFound));
    assert_eq!(classify_request_line("GET / HTTP/1.0\r\n"), Route::Page(Page::NotFound));
    assert_eq!(classify_request_line(""), Route::Page(Page::NotFound));
}

#[test]
fn page_properties() {
    assert_eq!(Page::Index.status_line(), "HTTP/1.1 200 OK");
    assert_eq!(Page::DelayedIndex.status_line(), "HTTP/1.1 200 OK");
    assert_eq!(Page::NotFound.status_line(), "HTTP/1.1 404 NOT FOUND");
    assert_eq!(Page::Index.file_path(), "static/index.html");
    assert_eq!(Page::DelayedIndex.file_path(), "static/index.html");
    assert_eq!(Page::NotFound.file_path(), "static/404.html");
    assert_eq!(Page::NotFound.content_type(), "text/html; charset=utf-8");
    assert_eq!(Page::DelayedIndex.delay_seconds(), 2);
    assert_eq!(Page::Index.delay_seconds(), 0);
    assert_eq!(Page::NotFound.delay_seconds(), 0);
    assert_eq!(missing_page_body(), "<h1>Error</h1>");
}

#[test]
fn page_response_framing() {
    let r = page_response(Page::NotFound, "<h1>Error</h1>".as_bytes());
    assert_eq!(
        String::from_utf8(r).unwrap(),
        "HTTP/1.1 404 NOT FOUND\r\nContent-Type: text/html; charset=utf-8\r\nAccess-Control-Allow-Origin: *\r\nContent-Length: 14\r\n\r\n<h1>Error</h1>"
    );
}

#[test]
fn content_length_counts_bytes() {
    let body = "é🤖";
    let r = page_response(Page::Index, body.as_bytes());
    let expected = format!(
        "HTTP/1.1 200 OK\r\nContent-Type: text/html; charset=utf-8\r\nAccess-Control-Allow-Origin: *\r\nContent-Length: {}\r\n\r\n{}",
        body.len(),
        body
    );
    assert_eq!(body.len(), 6);
    assert_eq!(String::from_utf8(r).unwrap(), expected);
}

#[test]
fn empty_body_has_zero_length() {
    let r = audit_json_response(b"");
    assert_eq!(
        String::from_utf8(r).unwrap(),
        "HTTP/1.1 200 OK\r\nContent-Type: application/json\r\nAccess-Control-Allow-Origin: *\r\nContent-Length: 0\r\n\r\n"
    );
}

#[test]
fn audit_response_framing() {
    let json = "{\"status\":\"success\"}";
    let r = audit_json_response(json.as_bytes());
    assert_eq!(
        String::from_utf8(r).unwrap(),
        "HTTP/1.1 200 OK\r\nContent-Type: application/json\r\nAccess-Control-Allow-Origin: *\r\nContent-Length: 20\r\n\r\n{\"status\":\"success\"}"
    );
}

#[test]
fn long_body_length_has_several_digits() {
    let body = vec![b'a'; 12345];
    let r = audit_json_response(&body);
    let head = String::from_utf8(r[..r.len() - body.len()].to_vec()).unwrap();
    assert!(head.ends_with("Content-Length: 12345\r\n\r\n"));
}

#[test]
fn preflight_response_text() {
    assert_eq!(
        String::from_utf8(preflight_response()).unwrap(),
        "HTTP/1.1 204 No Content\r\nAccess-Control-Allow-Origin: *\r\nAccess-Control-Allow-Methods: POST, GET, OPTIONS\r\nAccess-Control-Allow-Headers: Content-Type\r\nContent-Length: 0\r\n\r\n"
    );
}

#[test]
fn too_many_requests_response_text() {
    assert_eq!(too_many_requests_status(), "429 Too Many Requests");
    assert_eq!(
        String::from_utf8(error_status_response(too_many_requests_status())).unwrap(),
        "HTTP/1.1 429 Too Many Requests\r\nContent-Length: 0\r\n\r\n"
    );
}

#[test]
fn header_scan_ends_at_blank_line() {
    assert_eq!(scan_header_line(7, 2, "\r\n"), None);
    assert_eq!(scan_header_line(7, 0, ""), None);
    assert_eq!(scan_header_line(7, 1, "\n"), None);
}

#[test]
fn header_scan_reads_content_length() {
    assert_eq!(scan_header_line(0, 20, "Content-Length: 12\r\n"), Some(12));
    assert_eq!(scan_header_line(0, 20, "content-length:12\r\n"), Some(12));
    assert_eq!(scan_header_line(0, 20, "CONTENT-LENGTH:\t 7 \r\n"), Some(7));
    assert_eq!(scan_header_line(0, 20, "Content-Length: +5\r\n"), Some(5));
    assert_eq!(scan_header_line(0, 20, "Content-Length: 012\r\n"), Some(12));
    assert_eq!(scan_header_line(0, 20, "Content-Length: 12:3\r\n"), Some(12));
}

#[test]
fn header_scan_unreadable_length_is_zero() {
    assert_eq!(scan_header_line(9, 20, "Content-Length: abc\r\n"), Some(0));
    assert_eq!(scan_header_line(9, 20, "Content-Length: -5\r\n"), Some(0));
    assert_eq!(scan_header_line(9, 20, "Content-Length: \r\n"), Some(0));
    assert_eq!(scan_header_line(9, 20, "Content-Length: +\r\n"), Some(0));
    assert_eq!(scan_header_line(9, 20, "Content-Length: 1 2\r\n"), Some(0));
    assert_eq!(
        scan_header_line(9, 40, "Content-Length: 99999999999999999999999\r\n"),
        Some(0)
    );
}

#[test]
fn header_scan_keeps_length_on_other_headers() {
    assert_eq!(scan_header_line(9, 20, "Content-Type: text/plain\r\n"), Some(9));
    assert_eq!(scan_header_line(9, 20, "X-Content-Length: 5\r\n"), Some(9));
    assert_eq!(scan_header_line(9, 20, "Content-Length 5\r\n"), Some(9));
}

#[test]
fn header_scan_round_trips_written_lengths() {
    for n in [0usize, 7, 10, 99, 1000, 123456789, usize::MAX] {
        let line = format!("Content-Length: {}\r\n", n);
        assert_eq!(scan_header_line(0, line.len(), &line), Some(n));
    }
}
