use wirecalc::http::{HttpHeaders, HttpMethod, HttpRequest, HttpVersion};

fn request(uri: &str) -> HttpRequest {
    HttpRequest::new(
        HttpMethod::Get,
        uri.to_string(),
        HttpVersion::Http11,
        HttpHeaders::new(),
        Vec::new(),
    )
}

#[test]
fn request_path_and_query() {
    let r = request("/add?a=2&b=3");
    assert_eq!(r.path(), "/add");
    assert_eq!(r.query_str(), Some("a=2&b=3"));
    let r = request("/plain");
    assert_eq!(r.path(), "/plain");
    assert_eq!(r.query_str(), None);
    let r = request("/x?");
    assert_eq!(r.path(), "/x");
    assert_eq!(r.query_str(), Some(""));
}

#[test]
fn request_query_lookup() {
    let r = request("/add?flag&a=1&a=2&b==5&c=");
    assert_eq!(r.get_query("a"), Some("1"));
    assert_eq!(r.get_query("b"), Some("=5"));
    assert_eq!(r.get_query("c"), Some(""));
    assert_eq!(r.get_query("flag"), None);
    assert_eq!(r.get_query("d"), None);
    assert_eq!(request("/add").get_query("a"), None);
}

#[test]
fn request_query_with_unicode() {
    let r = request("/é?ключ=значение&b=2");
    assert_eq!(r.path(), "/é");
    assert_eq!(r.get_query("ключ"), Some("значение"));
    assert_eq!(r.get_query("b"), Some("2"));
}

#[test]
fn request_should_close() {
    let mut r = request("/");
    assert!(!r.should_close());
    r.version = HttpVersion::Http10;
    assert!(r.should_close());
    let mut h = HttpHeaders::new();
    h.insert("Connection", "close");
    let r = HttpRequest::new(HttpMethod::Get, "/".to_string(), HttpVersion::Http11, h, Vec::new());
    assert!(r.should_close());
}

#[test]
fn request_target_is_path_then_query() {
    for uri in ["/add?a=2&b=3", "/x?y?z", "/plain", "?only"] {
        let r = request(uri);
        let rebuilt = match r.query_str() {
            Some(q) => format!("{}?{}", r.path(), q),
            None => r.path().to_string(),
        };
        assert_eq!(rebuilt, uri);
        assert!(!r.path().contains('?'));
    }
}
