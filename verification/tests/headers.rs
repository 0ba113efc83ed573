use wirecalc::http::HttpHeaders;

#[test]
fn headers_host_is_trimmed_and_case_insensitive() {
    let mut h = HttpHeaders::new();
    assert!(!h.has_valid_host());
    assert_eq!(h.get("Host"), None);
    h.insert("  HoSt ", "  example.org  ");
    assert!(h.has_valid_host());
    assert_eq!(h.get("host"), Some("example.org"));
    assert_eq!(h.get("HOST"), Some("example.org"));
}

#[test]
fn headers_empty_host_is_not_valid() {
    let mut h = HttpHeaders::new();
    h.insert("Host", "   ");
    assert!(!h.has_valid_host());
    assert_eq!(h.get("host"), Some(""));
}

#[test]
fn headers_content_length_parsing() {
    let mut h = HttpHeaders::new();
    assert_eq!(h.content_length(), None);
    h.insert("Content-Length", " 42 ");
    assert_eq!(h.content_length(), Some(42));
    h.insert("content-length", "+7");
    assert_eq!(h.content_length(), Some(7));
    h.insert("CONTENT-LENGTH", "-7");
    assert_eq!(h.content_length(), None);
    h.insert("Content-Length", "18446744073709551616999");
    assert_eq!(h.content_length(), None);
    h.insert("Content-Length", "+");
    assert_eq!(h.content_length(), None);
    h.insert("Content-Length", "007");
    assert_eq!(h.content_length(), Some(7));
    // The last Content-Length value is found as it arrived, trimmed.
    assert_eq!(h.get("content-length"), Some("007"));
    assert_eq!(h.get("CONTENT-Length"), Some("007"));
    let mut h = HttpHeaders::new();
    assert_eq!(h.get("content-length"), None);
    h.insert("Content-Length", "5");
    assert_eq!(h.get("content-length"), Some("5"));
    h.insert("Content-Length", " abc ");
    assert_eq!(h.get("content-length"), Some("abc"));
    assert_eq!(h.content_length(), None);
}

#[test]
fn headers_connection_close() {
    let mut h = HttpHeaders::new();
    assert!(!h.is_connection_close());
    assert_eq!(h.get("Connection"), Some("keep-alive"));
    h.insert("Connection", "CLOSE");
    assert!(h.is_connection_close());
    assert_eq!(h.get("connection"), Some("close"));
    h.insert("Connection", "keep-alive");
    assert!(!h.is_connection_close());
}

#[test]
fn headers_other_first_value_wins() {
    let mut h = HttpHeaders::new();
    h.insert("X-Token", " one ");
    h.insert("x-token", "two");
    assert_eq!(h.get("X-TOKEN"), Some("one"));
    assert_eq!(h.get("x-missing"), None);
}

#[test]
fn headers_default_is_empty() {
    let h = HttpHeaders::default();
    assert_eq!(h, HttpHeaders::new());
}

#[test]
fn headers_last_special_values_win() {
    let mut h = HttpHeaders::new();
    h.insert("Host", "a");
    h.insert("X", "1");
    h.insert(" host ", "   ");
    assert!(!h.has_valid_host());
    h.insert("Connection", "close");
    h.insert("Connection", "keep-alive, close");
    assert!(!h.is_connection_close());
    h.insert("Content-Length", "abc");
    h.insert("Content-Length", "12");
    assert_eq!(h.content_length(), Some(12));
    h.insert("Content-Length", "-1");
    assert_eq!(h.content_length(), None);
}

#[test]
fn headers_equality_ignores_content_length_spelling() {
    let mut a = HttpHeaders::new();
    a.insert("Content-Length", "5");
    let mut b = HttpHeaders::new();
    b.insert("Content-Length", "05");
    assert_eq!(a, b);
    b.insert("Content-Length", "6");
    assert_ne!(a, b);
    let mut c = HttpHeaders::new();
    c.insert("Host", "x");
    assert_ne!(c, HttpHeaders::new());
    let mut d = HttpHeaders::new();
    d.insert("X-A", "1");
    let mut e = HttpHeaders::new();
    e.insert("x-a", "1");
    assert_eq!(d, e);
    e.insert("x-b", "1");
    assert_ne!(d, e);
}
