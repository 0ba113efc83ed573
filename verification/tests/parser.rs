use wirecalc::http::{HttpMethod, HttpParser, ParseStatus};

#[test]
fn test_parse_simple_get() {
    let wire = b"GET /add?a=2&b=3 HTTP/1.1\r\nHost: localhost:8080\r\n\r\n";
    let (req, consumed) = match HttpParser::parse(wire) {
        ParseStatus::Complete(r, c) => (r, c),
        other => panic!("Expected Complete, got {other:?}"),
    };
    assert_eq!(consumed, wire.len());
    assert_eq!(req.method, HttpMethod::Get);
    assert_eq!(req.path(), "/add");
    assert_eq!(req.get_query("a"), Some("2"));
    assert_eq!(req.get_query("b"), Some("3"));
}

#[test]
fn test_parse_missing_host() {
    let wire = b"GET /add?a=2&b=3 HTTP/1.1\r\nUser-Agent: test\r\n\r\n";
    match HttpParser::parse(wire) {
        ParseStatus::RecoverableError {
            consumed_bytes,
            error,
            ..
        } => {
            assert_eq!(consumed_bytes, wire.len());
            assert!(error.contains("missing Host"));
        }
        other => panic!("Expected RecoverableError, got {other:?}"),
    }
}

#[test]
fn test_pipelining_buffer_slicing() {
    let req1 = b"GET /add?a=2&b=3 HTTP/1.1\r\nHost: localhost:8080\r\n\r\n";
    let req2 = b"GET /sub?a=10&b=4 HTTP/1.1\r\nHost: localhost:8080\r\n\r\n";
    let mut combined = [req1.as_slice(), req2.as_slice()].concat();

    let (req1_res, c1) = match HttpParser::parse(&combined) {
        ParseStatus::Complete(r, c) => (r, c),
        other => panic!("Expected Complete for req1, got {other:?}"),
    };
    assert_eq!(req1_res.path(), "/add");
    assert_eq!(c1, req1.len());
    combined.drain(..c1);

    let (req2_res, c2) = match HttpParser::parse(&combined) {
        ParseStatus::Complete(r, c) => (r, c),
        other => panic!("Expected Complete for req2, got {other:?}"),
    };
    assert_eq!(req2_res.path(), "/sub");
    assert_eq!(c2, req2.len());
}

#[test]
fn test_content_length_exact_boundary() {
    let body = b"{\"hello\":\"world\"}";
    let raw = format!(
        "POST /add HTTP/1.1\r\nHost: localhost\r\nContent-Length: {}\r\n\r\n{}",
        body.len(),
        std::str::from_utf8(body).unwrap()
    );
    let mut wire = raw.into_bytes();
    wire.extend_from_slice(b"G");

    let (req, consumed) = match HttpParser::parse(&wire) {
        ParseStatus::Complete(r, c) => (r, c),
        other => panic!("Expected Complete, got {other:?}"),
    };
    assert_eq!(req.body, body);
    assert_eq!(consumed, wire.len() - 1);
}

#[test]
fn test_post_body_followed_by_get() {
    let post_req = b"POST /add HTTP/1.1\r\nHost: localhost\r\nContent-Length: 5\r\n\r\nHELLO";
    let get_req = b"GET /add?a=2&b=3 HTTP/1.1\r\nHost: localhost\r\n\r\n";
    let mut combined = [post_req.as_slice(), get_req.as_slice()].concat();

    let (req1, c1) = match HttpParser::parse(&combined) {
        ParseStatus::Complete(r, c) => (r, c),
        other => panic!("Expected Complete for POST, got {other:?}"),
    };
    assert_eq!(req1.method, HttpMethod::Post);
    assert_eq!(req1.body, b"HELLO");
    assert_eq!(c1, post_req.len());
    combined.drain(..c1);

    let (req2, c2) = match HttpParser::parse(&combined) {
        ParseStatus::Complete(r, c) => (r, c),
        other => panic!("Expected Complete for GET, got {other:?}"),
    };
    assert_eq!(req2.method, HttpMethod::Get);
    assert_eq!(req2.path(), "/add");
    assert_eq!(c2, get_req.len());
}

#[test]
fn parse_needs_more_data_without_blank_line() {
    let wire = b"GET /add?a=2&b=3 HTTP/1.1\r\nHost: localhost\r\n";
    assert_eq!(HttpParser::parse(wire), ParseStatus::NeedMoreData);
    assert_eq!(HttpParser::parse(b""), ParseStatus::NeedMoreData);
    assert_eq!(HttpParser::parse(b"\n"), ParseStatus::NeedMoreData);
}

#[test]
fn parse_needs_more_data_until_body_complete() {
    let wire = b"POST /add HTTP/1.1\r\nHost: x\r\nContent-Length: 5\r\n\r\nHEL";
    assert_eq!(HttpParser::parse(wire), ParseStatus::NeedMoreData);
}

#[test]
fn parse_accepts_bare_newline_delimiter() {
    let wire = b"GET /mul?a=6&b=7 HTTP/1.1\nHost: h\n\nrest";
    match HttpParser::parse(wire) {
        ParseStatus::Complete(r, c) => {
            assert_eq!(c, wire.len() - 4);
            assert_eq!(r.path(), "/mul");
            assert_eq!(r.headers.get("HOST"), Some("h"));
        }
        other => panic!("Expected Complete, got {other:?}"),
    }
}

#[test]
fn parse_invalid_utf8_is_fatal() {
    let wire = b"GET /\xff HTTP/1.1\r\nHost: h\r\n\r\n";
    assert_eq!(
        HttpParser::parse(wire),
        ParseStatus::FatalError("Invalid UTF-8 encoding in headers".to_string())
    );
}

#[test]
fn parse_empty_request_line_is_fatal() {
    let wire = b"   \r\nHost: h\r\n\r\n";
    assert_eq!(
        HttpParser::parse(wire),
        ParseStatus::FatalError("Empty request line".to_string())
    );
}

#[test]
fn parse_single_word_request_line_is_fatal() {
    let wire = b"GET\r\nHost: h\r\n\r\n";
    assert_eq!(
        HttpParser::parse(wire),
        ParseStatus::FatalError("Malformed request line".to_string())
    );
}

#[test]
fn parse_http10_without_host_is_complete() {
    let wire = b"GET /add?a=1&b=2 HTTP/1.0\r\n\r\n";
    match HttpParser::parse(wire) {
        ParseStatus::Complete(r, c) => {
            assert_eq!(c, wire.len());
            assert!(r.should_close());
        }
        other => panic!("Expected Complete, got {other:?}"),
    }
}

#[test]
fn parse_missing_version_defaults_to_http11() {
    let wire = b"GET /add\r\n\r\n";
    match HttpParser::parse(wire) {
        ParseStatus::RecoverableError {
            error,
            consumed_bytes,
            close_connection,
        } => {
            assert_eq!(error, "HTTP/1.1 request missing Host header");
            assert_eq!(consumed_bytes, wire.len());
            assert!(!close_connection);
        }
        other => panic!("Expected RecoverableError, got {other:?}"),
    }
}

#[test]
fn parse_missing_host_keeps_connection_close() {
    let wire = b"GET /add HTTP/1.1\r\nConnection: Close\r\n\r\n";
    match HttpParser::parse(wire) {
        ParseStatus::RecoverableError {
            close_connection, ..
        } => assert!(close_connection),
        other => panic!("Expected RecoverableError, got {other:?}"),
    }
}

#[test]
fn parse_empty_host_is_missing() {
    let wire = b"GET /add HTTP/1.1\r\nHost:   \r\n\r\n";
    assert!(matches!(
        HttpParser::parse(wire),
        ParseStatus::RecoverableError { .. }
    ));
}

#[test]
fn parse_invalid_content_length_means_no_body() {
    let wire = b"POST /add HTTP/1.1\r\nHost: h\r\nContent-Length: five\r\n\r\nHELLO";
    match HttpParser::parse(wire) {
        ParseStatus::Complete(r, c) => {
            assert_eq!(c, wire.len() - 5);
            assert!(r.body.is_empty());
        }
        other => panic!("Expected Complete, got {other:?}"),
    }
}

#[test]
fn parse_header_line_without_colon_is_skipped() {
    let wire = b"GET /x HTTP/1.1\r\nnonsense\r\nHost: h\r\n\r\n";
    match HttpParser::parse(wire) {
        ParseStatus::Complete(r, _) => {
            assert_eq!(r.headers.get("host"), Some("h"));
            assert_eq!(r.headers.get("nonsense"), None);
        }
        other => panic!("Expected Complete, got {other:?}"),
    }
}

#[test]
fn frame_fits_rejects_overflowing_content_length() {
    let wire = b"POST / HTTP/1.1\r\nHost: h\r\nContent-Length: 18446744073709551615\r\n\r\n";
    if usize::MAX as u128 == u64::MAX as u128 {
        assert!(!HttpParser::frame_fits(wire));
    }
    assert!(HttpParser::frame_fits(b"GET / HTTP/1.1\r\nHost: h\r\n\r\n"));
    assert!(HttpParser::frame_fits(b"garbage"));
}

#[test]
fn parse_ignores_following_bytes() {
    let one = b"POST /add HTTP/1.1\r\nHost: h\r\nContent-Length: 3\r\n\r\nabc".to_vec();
    let alone = HttpParser::parse(&one);
    let mut more = one.clone();
    more.extend_from_slice(b"\xff\xfe garbage \r\n\r\n");
    assert_eq!(HttpParser::parse(&more), alone);
    match alone {
        ParseStatus::Complete(r, n) => {
            assert_eq!(n, one.len());
            assert_eq!(r.body, b"abc");
        }
        other => panic!("Expected Complete, got {other:?}"),
    }
}

#[test]
fn parse_every_strict_prefix_needs_more_data() {
    let wire = b"POST /add HTTP/1.1\r\nHost: h\r\nContent-Length: 3\r\n\r\nabc";
    for k in 0..wire.len() {
        assert_eq!(HttpParser::parse(&wire[..k]), ParseStatus::NeedMoreData, "cut at {k}");
    }
    let wire = b"GET /x HTTP/1.1\n\n";
    for k in 0..wire.len() {
        assert_eq!(HttpParser::parse(&wire[..k]), ParseStatus::NeedMoreData, "cut at {k}");
    }
    assert!(matches!(
        HttpParser::parse(wire),
        ParseStatus::RecoverableError { consumed_bytes: 17, .. }
    ));
}

#[test]
fn parse_result_unchanged_by_appended_bytes() {
    let fatal = b"\r\n\r\n".to_vec();
    let mut longer = fatal.clone();
    longer.extend_from_slice(b"GET / HTTP/1.1\r\n\r\n");
    assert_eq!(HttpParser::parse(&longer), HttpParser::parse(&fatal));
    let missing_host = b"GET /x HTTP/1.1\r\n\r\n".to_vec();
    let mut longer = missing_host.clone();
    longer.extend_from_slice(b"POST /y HTTP/1.1\r\nHost: h\r\n\r\n");
    assert_eq!(HttpParser::parse(&longer), HttpParser::parse(&missing_host));
}

#[test]
fn parse_content_length_header_is_found() {
    let wire = b"POST /add HTTP/1.1\r\nHost: h\r\ncontent-LENGTH:  5 \r\n\r\nHELLO";
    match HttpParser::parse(wire) {
        ParseStatus::Complete(r, _) => {
            assert_eq!(r.headers.get("Content-Length"), Some("5"));
            assert_eq!(r.headers.content_length(), Some(5));
        }
        other => panic!("Expected Complete, got {other:?}"),
    }
}
