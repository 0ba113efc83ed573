use std::sync::Arc;

use wirecalc::calc::{CalcError, OperationRegistry};
use wirecalc::http::{HttpHeaders, HttpMethod, HttpRequest, HttpResponse, HttpStatus, HttpVersion};
use wirecalc::server::{ConnectionAction, ConnectionState, Route, Router};

fn setup_router() -> Router<&'static str> {
    let mut registry = OperationRegistry::new();
    registry.register("add", "ADD");
    registry.register("sub", "SUB");
    registry.register("mul", "MUL");
    registry.register("div", "DIV");
    Router::new(Arc::new(registry))
}

fn make_request(method: HttpMethod, uri: &str) -> HttpRequest {
    let mut headers = HttpHeaders::new();
    headers.insert("Host", "localhost:8080");
    HttpRequest::new(method, uri.to_string(), HttpVersion::Http11, headers, Vec::new())
}

fn is_number(req: &HttpRequest, key: &str) -> bool {
    req.get_query(key).map_or(false, |v| v.parse::<f64>().is_ok())
}

fn status_of(route: Route<'_, &'static str>) -> HttpStatus {
    match route {
        Route::Respond(resp) => resp.status,
        Route::Compute { .. } => panic!("expected a response"),
    }
}

#[test]
fn route_valid_calculations_name_operation_and_operands() {
    let router = setup_router();
    for (uri, op, a, b) in [
        ("/add?a=2&b=3", "ADD", "2", "3"),
        ("/sub?a=10&b=4", "SUB", "10", "4"),
        ("/mul?a=6&b=7", "MUL", "6", "7"),
        ("/div?a=9&b=3", "DIV", "9", "3"),
    ] {
        let req = make_request(HttpMethod::Get, uri);
        match router.route(&req, is_number(&req, "a"), is_number(&req, "b")) {
            Route::Compute { operation, a: x, b: y } => {
                assert_eq!(*operation, op);
                assert_eq!(x, a);
                assert_eq!(y, b);
            }
            Route::Respond(r) => panic!("unexpected response {:?}", r.status),
        }
    }
}

#[test]
fn route_invalid_param_is_bad_request() {
    let router = setup_router();
    let req = make_request(HttpMethod::Get, "/add?a=x&b=3");
    match router.route(&req, is_number(&req, "a"), is_number(&req, "b")) {
        Route::Respond(r) => {
            assert_eq!(r.status, HttpStatus::BadRequest);
            assert_eq!(r.body, b"Bad Request: Parameter 'a' is not a valid number: 'x'\n");
        }
        Route::Compute { .. } => panic!("expected a response"),
    }
    // `a` is checked before `b` is looked for.
    let req = make_request(HttpMethod::Get, "/add?a=x");
    assert_eq!(status_of(router.route(&req, false, false)), HttpStatus::BadRequest);
}

#[test]
fn route_missing_params() {
    let router = setup_router();
    let req = make_request(HttpMethod::Get, "/add?b=3");
    match router.route(&req, false, true) {
        Route::Respond(r) => assert_eq!(r.body, b"Bad Request: Missing parameter 'a'\n"),
        Route::Compute { .. } => panic!("expected a response"),
    }
    let req = make_request(HttpMethod::Get, "/add?a=3");
    match router.route(&req, true, false) {
        Route::Respond(r) => assert_eq!(r.body, b"Bad Request: Missing parameter 'b'\n"),
        Route::Compute { .. } => panic!("expected a response"),
    }
}

#[test]
fn route_unknown_operation_is_not_found() {
    let router = setup_router();
    let req = make_request(HttpMethod::Get, "/pow?a=2&b=8");
    assert_eq!(status_of(router.route(&req, true, true)), HttpStatus::NotFound);
    // 404 is decided before the method is looked at.
    let req = make_request(HttpMethod::Post, "/pow");
    assert_eq!(status_of(router.route(&req, false, false)), HttpStatus::NotFound);
}

#[test]
fn route_post_is_method_not_allowed() {
    let router = setup_router();
    let req = make_request(HttpMethod::Post, "/add");
    assert_eq!(status_of(router.route(&req, false, false)), HttpStatus::MethodNotAllowed);
}

#[test]
fn route_path_without_slash_and_with_spaces() {
    let router = setup_router();
    let req = make_request(HttpMethod::Get, "add?a=1&b=2");
    assert!(matches!(router.route(&req, true, true), Route::Compute { .. }));
}

#[test]
fn respond_outcomes() {
    let req = make_request(HttpMethod::Get, "/div?a=1&b=0");
    let r = Router::<&'static str>::respond(&req, Err(CalcError::DivisionByZero));
    assert_eq!(r.status, HttpStatus::BadRequest);
    assert_eq!(r.body, b"Bad Request: Division by zero\n");
    let r = Router::<&'static str>::respond(&req, Ok("5\n".to_string()));
    assert_eq!(r.status, HttpStatus::OK);
    assert_eq!(r.body, b"5\n");
    let r = Router::<&'static str>::respond(
        &req,
        Err(CalcError::InvalidParameter("odd".to_string())),
    );
    assert_eq!(r.body, b"Bad Request: Invalid parameter: odd\n");
}

#[test]
fn connection_serves_pipelined_requests_in_order() {
    let mut conn = ConnectionState::new();
    assert!(matches!(conn.next_action(), ConnectionAction::ReadMore));
    conn.receive(b"GET /add?a=2&b=3 HTTP/1.1\r\nHost: h\r\n\r\nGET /sub?a=1&b=1 HTTP/1.1\r\nHo");
    match conn.next_action() {
        ConnectionAction::Dispatch { request, close_after } => {
            assert_eq!(request.path(), "/add");
            assert!(!close_after);
        }
        _ => panic!("expected the first request"),
    }
    assert!(matches!(conn.next_action(), ConnectionAction::ReadMore));
    conn.receive(b"st: h\r\nConnection: close\r\n\r\n");
    match conn.next_action() {
        ConnectionAction::Dispatch { request, close_after } => {
            assert_eq!(request.path(), "/sub");
            assert!(close_after);
        }
        _ => panic!("expected the second request"),
    }
    assert!(matches!(conn.next_action(), ConnectionAction::ReadMore));
}

#[test]
fn connection_answers_errors() {
    let mut conn = ConnectionState::new();
    conn.receive(b"GET /add HTTP/1.1\r\n\r\nGET /add HTTP/1.0\r\n\r\n");
    match conn.next_action() {
        ConnectionAction::Reply { response, close_after } => {
            assert_eq!(response.status, HttpStatus::BadRequest);
            assert_eq!(response.body, b"Bad Request: HTTP/1.1 request missing Host header\n");
            assert!(!close_after);
        }
        _ => panic!("expected a reply"),
    }
    match conn.next_action() {
        ConnectionAction::Dispatch { close_after, .. } => assert!(close_after),
        _ => panic!("expected the HTTP/1.0 request"),
    }
    let mut conn = ConnectionState::new();
    conn.receive(b"\r\n\r\n");
    match conn.next_action() {
        ConnectionAction::Reply { response, close_after } => {
            assert_eq!(response.body, b"Bad Request: Empty request line\n");
            assert!(close_after);
        }
        _ => panic!("expected a reply"),
    }
}

#[test]
fn connection_aborts_on_unaddressable_body() {
    if usize::MAX as u128 != u64::MAX as u128 {
        return;
    }
    let mut conn = ConnectionState::new();
    conn.receive(b"POST / HTTP/1.1\r\nHost: h\r\nContent-Length: 18446744073709551615\r\n\r\n");
    assert!(matches!(conn.next_action(), ConnectionAction::Abort));
    let _ = HttpResponse::method_not_allowed(false);
}

#[test]
fn connection_six_pipelined_requests_on_one_socket() {
    let wire = b"GET /add?a=2&b=3 HTTP/1.1\r\nHost: localhost\r\n\r\n\
GET /sub?a=10&b=4 HTTP/1.1\r\nHost: localhost\r\n\r\n\
GET /mul?a=6&b=7 HTTP/1.1\r\nHost: localhost\r\n\r\n\
GET /div?a=1&b=0 HTTP/1.1\r\nHost: localhost\r\n\r\n\
GET /pow?a=2&b=8 HTTP/1.1\r\nHost: localhost\r\n\r\n\
POST /add HTTP/1.1\r\nHost: localhost\r\nContent-Length: 0\r\n\r\n";
    let router = setup_router();
    let mut conn = ConnectionState::new();
    conn.receive(wire);
    let mut seen = Vec::new();
    loop {
        match conn.next_action() {
            ConnectionAction::Dispatch { request, close_after } => {
                assert!(!close_after);
                let a = is_number(&request, "a");
                let b = is_number(&request, "b");
                match router.route(&request, a, b) {
                    Route::Compute { operation, .. } => seen.push(operation.to_string()),
                    Route::Respond(r) => seen.push(r.status.code().to_string()),
                }
            }
            ConnectionAction::ReadMore => break,
            _ => panic!("unexpected action"),
        }
    }
    assert_eq!(seen, vec!["ADD", "SUB", "MUL", "DIV", "404", "405"]);
}

#[test]
fn connection_serves_requests_in_order_whatever_the_chunking() {
    let wire: &[u8] = b"GET /add?a=2&b=3 HTTP/1.1\r\nHost: h\r\n\r\n\
POST /mul HTTP/1.1\r\nHost: h\r\nContent-Length: 4\r\n\r\nbody\
GET /sub?a=10&b=4 HTTP/1.1\nHost: h\n\n";
    for size in 1..=wire.len() {
        let mut conn = ConnectionState::new();
        let mut paths = Vec::new();
        for chunk in wire.chunks(size) {
            conn.receive(chunk);
            loop {
                match conn.next_action() {
                    ConnectionAction::Dispatch { request, close_after } => {
                        assert!(!close_after);
                        paths.push(request.path().to_string());
                    }
                    ConnectionAction::ReadMore => break,
                    _ => panic!("unexpected action"),
                }
            }
        }
        assert_eq!(paths, vec!["/add", "/mul", "/sub"], "chunk size {size}");
    }
}

#[test]
fn connection_close_request_is_the_last_served() {
    let mut conn = ConnectionState::new();
    conn.receive(b"GET /add HTTP/1.1\r\nHost: h\r\nConnection: close\r\n\r\nGET /sub HTTP/1.1\r\nHost: h\r\n\r\n");
    match conn.next_action() {
        ConnectionAction::Dispatch { request, close_after } => {
            assert_eq!(request.path(), "/add");
            assert!(close_after);
        }
        _ => panic!("expected the closing request"),
    }
}

#[test]
fn connection_skips_bad_request_and_serves_next() {
    let mut conn = ConnectionState::new();
    conn.receive(b"GET /add HTTP/1.1\r\n\r\nGET /sub HTTP/1.1\r\nHost: h\r\n\r\n");
    match conn.next_action() {
        ConnectionAction::Reply { response, close_after } => {
            assert_eq!(response.status, HttpStatus::BadRequest);
            assert!(!close_after);
        }
        _ => panic!("expected a reply"),
    }
    match conn.next_action() {
        ConnectionAction::Dispatch { request, .. } => assert_eq!(request.path(), "/sub"),
        _ => panic!("expected the next request"),
    }
    assert!(matches!(conn.next_action(), ConnectionAction::ReadMore));
}
