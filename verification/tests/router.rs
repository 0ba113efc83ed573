use std::sync::Arc;

use wirecalc::calc::{CalcError, OperationRegistry};
use wirecalc::http::{HttpHeaders, HttpMethod, HttpRequest, HttpResponse, HttpStatus, HttpVersion};
use wirecalc::server::{Route, Router};

type Op = fn(f64, f64) -> Result<f64, CalcError>;

fn add(a: f64, b: f64) -> Result<f64, CalcError> {
    Ok(a + b)
}

fn sub(a: f64, b: f64) -> Result<f64, CalcError> {
    Ok(a - b)
}

fn mul(a: f64, b: f64) -> Result<f64, CalcError> {
    Ok(a * b)
}

fn div(a: f64, b: f64) -> Result<f64, CalcError> {
    if b == 0.0 || b.abs() < 1e-15 {
        return Err(CalcError::DivisionByZero);
    }
    Ok(a / b)
}

fn format_number(val: f64) -> String {
    if val.fract().abs() < 1e-12 {
        format!("{}\n", val as i64)
    } else {
        format!("{}\n", val)
    }
}

fn setup_router() -> Router<Op> {
    let mut registry: OperationRegistry<Op> = OperationRegistry::new();
    registry.register("add", add);
    registry.register("sub", sub);
    registry.register("mul", mul);
    registry.register("div", div);
    Router::new(Arc::new(registry))
}

fn make_request(method: HttpMethod, uri: &str) -> HttpRequest {
    let mut headers = HttpHeaders::new();
    headers.insert("Host", "localhost:8080");
    HttpRequest::new(method, uri.to_string(), HttpVersion::Http11, headers, Vec::new())
}

/// Routes a request and runs the operation it names on the operands.
fn route(router: &Router<Op>, req: &HttpRequest) -> HttpResponse {
    let numeric = |key: &str| req.get_query(key).map_or(false, |v| v.parse::<f64>().is_ok());
    match router.route(req, numeric("a"), numeric("b")) {
        Route::Respond(resp) => resp,
        Route::Compute { operation, a, b } => {
            let outcome = operation(a.parse().unwrap(), b.parse().unwrap()).map(format_number);
            Router::<Op>::respond(req, outcome)
        }
    }
}

#[test]
fn test_valid_calculations() {
    let router = setup_router();

    let resp_add = route(&router, &make_request(HttpMethod::Get, "/add?a=2&b=3"));
    assert_eq!(resp_add.status, HttpStatus::OK);
    assert_eq!(resp_add.body, b"5\n");

    let resp_sub = route(&router, &make_request(HttpMethod::Get, "/sub?a=10&b=4"));
    assert_eq!(resp_sub.status, HttpStatus::OK);
    assert_eq!(resp_sub.body, b"6\n");

    let resp_mul = route(&router, &make_request(HttpMethod::Get, "/mul?a=6&b=7"));
    assert_eq!(resp_mul.status, HttpStatus::OK);
    assert_eq!(resp_mul.body, b"42\n");

    let resp_div = route(&router, &make_request(HttpMethod::Get, "/div?a=9&b=3"));
    assert_eq!(resp_div.status, HttpStatus::OK);
    assert_eq!(resp_div.body, b"3\n");
}

#[test]
fn test_division_by_zero() {
    let router = setup_router();
    let resp = route(&router, &make_request(HttpMethod::Get, "/div?a=1&b=0"));
    assert_eq!(resp.status, HttpStatus::BadRequest);
}

#[test]
fn test_invalid_param() {
    let router = setup_router();
    let resp = route(&router, &make_request(HttpMethod::Get, "/add?a=x&b=3"));
    assert_eq!(resp.status, HttpStatus::BadRequest);
}

#[test]
fn test_not_found() {
    let router = setup_router();
    let resp = route(&router, &make_request(HttpMethod::Get, "/pow?a=2&b=8"));
    assert_eq!(resp.status, HttpStatus::NotFound);
}

#[test]
fn test_method_not_allowed() {
    let router = setup_router();
    let resp = route(&router, &make_request(HttpMethod::Post, "/add"));
    assert_eq!(resp.status, HttpStatus::MethodNotAllowed);
}

#[test]
fn route_fractional_result_keeps_decimals() {
    let router = setup_router();
    let resp = route(&router, &make_request(HttpMethod::Get, "/div?a=1&b=4"));
    assert_eq!(resp.body, b"0.25\n");
}
