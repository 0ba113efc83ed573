use wirecalc::http::{HttpMethod, HttpVersion};

#[test]
fn version_parse_and_text() {
    assert_eq!(HttpVersion::from_str_bytes("HTTP/1.1"), HttpVersion::Http11);
    assert_eq!(HttpVersion::from_str_bytes("HTTP/1.0"), HttpVersion::Http10);
    assert_eq!(HttpVersion::from_str_bytes("HTTP/2"), HttpVersion::Other);
    assert_eq!(HttpVersion::from_str_bytes("http/1.1"), HttpVersion::Other);
    for v in [HttpVersion::Http11, HttpVersion::Http10, HttpVersion::Other] {
        assert_eq!(HttpVersion::from_str_bytes(v.as_str()), v);
    }
    assert_eq!(HttpVersion::Other.as_str(), "HTTP/Other");
}

#[test]
fn method_parse_and_text() {
    assert_eq!(HttpMethod::from_str_bytes("GET"), HttpMethod::Get);
    assert_eq!(HttpMethod::from_str_bytes("POST"), HttpMethod::Post);
    assert_eq!(HttpMethod::from_str_bytes("get"), HttpMethod::Other);
    assert_eq!(HttpMethod::from_str_bytes("BREW"), HttpMethod::Other);
    for m in [
        HttpMethod::Get,
        HttpMethod::Head,
        HttpMethod::Post,
        HttpMethod::Put,
        HttpMethod::Delete,
        HttpMethod::Connect,
        HttpMethod::Options,
        HttpMethod::Trace,
        HttpMethod::Patch,
    ] {
        assert_eq!(HttpMethod::from_str_bytes(m.as_str()), m);
    }
}
