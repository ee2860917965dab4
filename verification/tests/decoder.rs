//! Tests of the HTTP/1.1 wire decoder: status lines, headers, the
//! informational-response skip, and chunked bodies.
use udoc::error::ErrorClass;
use udoc::http::is_redirect;
use udoc::wire::{
    build_h1_request, decode_chunked_preview, decode_h1_response, encode_chunked,
    find_header_end, host_header_for, parse_headers, parse_response_with_1xx_skip,
    read_complete, store_h2_header,
};
use udoc::http::ResponseHeaders;

#[test]
fn header_end_found_at_first_terminator() {
    assert_eq!(find_header_end(b"HTTP/1.1 200 OK\r\n\r\nbody"), Some(15));
    assert_eq!(find_header_end(b"abc\r\n\r\n\r\n\r\n"), Some(3));
    assert_eq!(find_header_end(b"no terminator here"), None);
    assert_eq!(find_header_end(b""), None);
}

#[test]
fn status_line_parses_with_version_heuristic() {
    let (sm, _) = parse_headers(b"HTTP/1.1 200 OK", "HTTP").unwrap();
    assert_eq!(sm.status, 200);
    assert_eq!(sm.version, "http/1.1");
    assert_eq!(sm.reason.as_deref(), Some("OK"));
    assert_eq!(sm.proto, "HTTP");

    let (sm, _) = parse_headers(b"HTTP/1.0 301 Moved Permanently", "HTTP").unwrap();
    assert_eq!(sm.version, "http/1.0");
    assert_eq!(sm.reason.as_deref(), Some("Moved Permanently"));

    let (sm, _) = parse_headers(b"HTTP/2 204", "HTTPS").unwrap();
    assert_eq!(sm.version, "h2");
    assert_eq!(sm.status, 204);
    assert!(sm.reason.is_none());
}

#[test]
fn malformed_status_line_is_an_http_error() {
    let e = parse_headers(b"garbage", "HTTP").unwrap_err();
    assert_eq!(e.class, ErrorClass::Http);
    assert_eq!(e.message, "invalid status line: garbage");

    let e = parse_headers(b"HTTP/1.1 abc OK", "HTTP").unwrap_err();
    assert_eq!(e.class, ErrorClass::Http);
    assert_eq!(e.message, "invalid status code: abc");
}

#[test]
fn known_headers_are_retained_and_folded() {
    let block = b"HTTP/1.1 200 OK\r\nLocation: /next\r\nSERVER: srv/1\r\nContent-Type: text/html\r\nContent-Length: 42\r\nTransfer-Encoding: Chunked\r\nX-Custom: dropped";
    let (_, hd) = parse_headers(block, "HTTP").unwrap();
    assert_eq!(hd.location.as_deref(), Some("/next"));
    assert_eq!(hd.server.as_deref(), Some("srv/1"));
    assert_eq!(hd.content_type.as_deref(), Some("text/html"));
    assert_eq!(hd.content_length, Some(42));
    assert_eq!(hd.transfer_encoding.as_deref(), Some("chunked"));
}

#[test]
fn informational_blocks_are_skipped() {
    let buf = b"HTTP/1.1 100 Continue\r\n\r\nHTTP/1.1 103 Early Hints\r\n\r\nHTTP/1.1 200 OK\r\nContent-Type: text/plain\r\n\r\nhello";
    let (sm, hd, body_start) = parse_response_with_1xx_skip(buf, "HTTP").unwrap();
    assert_eq!(sm.status, 200);
    assert_eq!(hd.content_type.as_deref(), Some("text/plain"));
    assert_eq!(&buf[body_start..], b"hello");
}

#[test]
fn decode_gives_only_the_definitive_response() {
    let buf = b"HTTP/1.1 100 Continue\r\n\r\nHTTP/1.1 200 OK\r\nServer: s\r\n\r\nhello";
    let (sm, hd, body) = decode_h1_response(buf, false, 1024).unwrap();
    assert_eq!(sm.status, 200);
    assert_eq!(sm.proto, "HTTP");
    assert_eq!(hd.server.as_deref(), Some("s"));
    assert_eq!(body, b"hello");
}

#[test]
fn garbage_status_line_fails_the_decode() {
    let e = decode_h1_response(b"garbage\r\n\r\n", false, 1024).unwrap_err();
    assert_eq!(e.class, ErrorClass::Http);
    assert_eq!(e.message, "invalid status line: garbage");
}

#[test]
fn missing_terminator_is_incomplete() {
    let e = decode_h1_response(b"HTTP/1.1 200 OK\r\n", false, 1024).unwrap_err();
    assert_eq!(e.class, ErrorClass::Http);
    assert_eq!(e.message, "incomplete HTTP response");
}

#[test]
fn chunked_body_decodes() {
    let body = b"5\r\nhello\r\n6\r\n world\r\n0\r\n\r\n";
    assert_eq!(decode_chunked_preview(body, 1024), b"hello world");
}

#[test]
fn chunked_decode_respects_budget() {
    let body = b"5\r\nhello\r\n6\r\n world\r\n0\r\n\r\n";
    assert_eq!(decode_chunked_preview(body, 3), b"hel");
    assert_eq!(decode_chunked_preview(body, 7), b"hello w");
    assert_eq!(decode_chunked_preview(body, 0), b"");
}

#[test]
fn chunked_extensions_and_hex_sizes() {
    let body = b"a;name=value\r\n0123456789\r\n0\r\n\r\n";
    assert_eq!(decode_chunked_preview(body, 1024), b"0123456789");
}

#[test]
fn malformed_chunk_size_ends_the_decode() {
    let body = b"xyz\r\ndata\r\n";
    assert_eq!(decode_chunked_preview(body, 1024), b"");
    let body = b"5\r\nhello\r\nzz\r\nmore\r\n";
    assert_eq!(decode_chunked_preview(body, 1024), b"hello");
}

#[test]
fn chunked_round_trip_reproduces_the_body() {
    let body: Vec<u8> = (0u16..300).map(|i| (i % 251) as u8).collect();
    for chunk_size in [1usize, 7, 64, 1000] {
        let encoded = encode_chunked(&body, chunk_size);
        assert_eq!(decode_chunked_preview(&encoded, body.len()), body);
        assert_eq!(decode_chunked_preview(&encoded, body.len() + 100), body);
        assert_eq!(decode_chunked_preview(&encoded, 17), &body[..17]);
    }
}

#[test]
fn flat_body_is_capped_at_the_limit() {
    let buf = b"HTTP/1.1 200 OK\r\n\r\n0123456789";
    let (_, _, body) = decode_h1_response(buf, false, 4).unwrap();
    assert_eq!(body, b"0123");
}

#[test]
fn chunked_response_decodes_through_the_header() {
    let buf = b"HTTP/1.1 200 OK\r\nTransfer-Encoding: chunked\r\n\r\n5\r\nhello\r\n0\r\n\r\n";
    let (_, hd, body) = decode_h1_response(buf, true, 1024).unwrap();
    assert_eq!(hd.transfer_encoding.as_deref(), Some("chunked"));
    assert_eq!(body, b"hello");
}

#[test]
fn read_complete_needs_terminator_and_full_body() {
    assert!(!read_complete(b"HTTP/1.1 200 OK\r\n", 3));
    assert!(!read_complete(b"HTTP/1.1 200 OK\r\n\r\nab", 3));
    assert!(read_complete(b"HTTP/1.1 200 OK\r\n\r\nabc", 3));
    assert!(read_complete(b"HTTP/1.1 200 OK\r\n\r\n", 0));
}

#[test]
fn h1_request_has_fixed_shape() {
    let req = build_h1_request("GET", "/a?b=c", "example.test:8080");
    assert_eq!(
        req,
        "GET /a?b=c HTTP/1.1\r\nHost: example.test:8080\r\nConnection: close\r\nUser-Agent: udoc/0.2\r\nAccept: */*\r\n\r\n"
    );
}

#[test]
fn host_header_omits_default_ports() {
    assert_eq!(host_header_for("h.test", 443, true), "h.test");
    assert_eq!(host_header_for("h.test", 80, false), "h.test");
    assert_eq!(host_header_for("h.test", 8443, true), "h.test:8443");
    assert_eq!(host_header_for("h.test", 443, false), "h.test:443");
}

#[test]
fn h2_headers_update_known_fields_only() {
    let hd = ResponseHeaders::default();
    let hd = store_h2_header(hd, "location", "/x");
    let hd = store_h2_header(hd, "content-length", "7");
    let hd = store_h2_header(hd, "x-other", "dropped");
    assert_eq!(hd.location.as_deref(), Some("/x"));
    assert_eq!(hd.content_length, Some(7));
    assert!(hd.server.is_none());
}

#[test]
fn redirect_statuses_are_exactly_five() {
    for s in [301u16, 302, 303, 307, 308] {
        assert!(is_redirect(s));
    }
    for s in [200u16, 204, 300, 304, 305, 306, 309, 400] {
        assert!(!is_redirect(s));
    }
}

#[test]
fn empty_body_and_empty_preview() {
    let (sm, _, body) = decode_h1_response(b"HTTP/1.1 204 No Content\r\n\r\n", false, 1024).unwrap();
    assert_eq!(sm.status, 204);
    assert!(body.is_empty());
    // A zero budget keeps nothing even when a body follows.
    let (_, _, body) = decode_h1_response(b"HTTP/1.1 200 OK\r\n\r\ndata", false, 0).unwrap();
    assert!(body.is_empty());
}

#[test]
fn repeated_headers_keep_the_last_value() {
    let block = b"HTTP/1.1 200 OK\r\nServer: one\r\nServer: two";
    let (_, hd) = parse_headers(block, "HTTP").unwrap();
    assert_eq!(hd.server.as_deref(), Some("two"));
}

#[test]
fn bad_content_length_is_dropped() {
    let block = b"HTTP/1.1 200 OK\r\nContent-Length: many";
    let (_, hd) = parse_headers(block, "HTTP").unwrap();
    assert_eq!(hd.content_length, None);
}
