use std::sync::Arc;

use vstd::prelude::*;
use vstd::utf8::encode_utf8;

use crate::calc::error::CalcError;
use crate::calc::operation::{registered, OperationRegistry};
use crate::http::method::HttpMethod;
use crate::http::request::{uri_path, uri_query_param, HttpRequest, RequestView};
use crate::http::response::{
    bad_request_response, method_not_allowed_response, not_found_response, response_with,
    HttpResponse, ResponseView,
};
use crate::http::status::HttpStatus;
use crate::text::{chars_of, push_str, string_from_chars, trim, trim_bounds};

verus! {

/// Directs incoming HTTP requests to the operations of a registry.
#[derive(Clone)]
pub struct Router<T> {
    registry: Arc<OperationRegistry<T>>,
}

/// What a request asks the router for: either the answer itself, or an
/// operation to apply to the operands `a` and `b`, which were found to be
/// numbers.
pub enum Route<'r, T> {
    Respond(HttpResponse),
    Compute { operation: &'r T, a: String, b: String },
}

/// What a route holds.
pub enum RouteView<T> {
    Respond(ResponseView),
    Compute { operation: T, a: Seq<char>, b: Seq<char> },
}

impl<'r, T> View for Route<'r, T> {
    type V = RouteView<T>;

    open spec fn view(&self) -> RouteView<T> {
        match self {
            Route::Respond(r) => RouteView::Respond(r@),
            Route::Compute { operation, a, b } => RouteView::Compute {
                operation: **operation,
                a: a@,
                b: b@,
            },
        }
    }
}

/// The operation a request path names: the path, trimmed, without its
/// leading `/`.
pub open spec fn operation_name(path: Seq<char>) -> Seq<char> {
    let p = trim(path);
    if p.len() > 0 && p[0] == '/' {
        p.drop_first()
    } else {
        p
    }
}

/// How a request is routed, given whether its operands read as numbers.
/// An unknown operation is `404 Not Found`; a known one must be asked for
/// with `GET` (else `405`); then operand `a` and then operand `b` must be
/// present and numeric (else `400`).
pub open spec fn route_of<T>(
    ops: Seq<(Seq<char>, T)>,
    req: RequestView,
    a_is_number: bool,
    b_is_number: bool,
) -> RouteView<T> {
    let close = req.should_close();
    match registered(ops, operation_name(uri_path(req.uri))) {
        None => RouteView::Respond(not_found_response("Unknown operation"@, close)),
        Some(op) => if req.method != HttpMethod::Get {
            RouteView::Respond(method_not_allowed_response(close))
        } else {
            match uri_query_param(req.uri, "a"@) {
                None => RouteView::Respond(bad_request_response("Missing parameter 'a'"@, close)),
                Some(a) => if !a_is_number {
                    RouteView::Respond(
                        bad_request_response(
                            "Parameter 'a' is not a valid number: '"@ + a + "'"@,
                            close,
                        ),
                    )
                } else {
                    match uri_query_param(req.uri, "b"@) {
                        None => RouteView::Respond(
                            bad_request_response("Missing parameter 'b'"@, close),
                        ),
                        Some(b) => if !b_is_number {
                            RouteView::Respond(
                                bad_request_response(
                                    "Parameter 'b' is not a valid number: '"@ + b + "'"@,
                                    close,
                                ),
                            )
                        } else {
                            RouteView::Compute { operation: op, a, b }
                        },
                    }
                },
            }
        },
    }
}

/// The answer to a request whose operation ran: the formatted result, or
/// `400 Bad Request` with the error's description.
pub open spec fn outcome_response(req: RequestView, outcome: Result<Seq<char>, Seq<char>>) -> ResponseView {
    match outcome {
        Ok(text) => response_with(HttpStatus::OK, encode_utf8(text), req.should_close()),
        Err(message) => bad_request_response(message, req.should_close()),
    }
}

/// A route computes only for a registered operation asked for with `GET`
/// whose operands `a` and `b` are both present and read as numbers, and it
/// hands on those operands as they stand in the query; when all of that
/// holds, it computes. Every other answer is an error that keeps the
/// request's close flag: `404` for an unknown operation, `405` for another
/// method, and `400` for a missing or non-numeric operand.
pub proof fn lemma_route_answers<T>(
    ops: Seq<(Seq<char>, T)>,
    req: RequestView,
    a_is_number: bool,
    b_is_number: bool,
)
    ensures
        match route_of(ops, req, a_is_number, b_is_number) {
            RouteView::Compute { operation, a, b } => {
                &&& a_is_number
                &&& b_is_number
                &&& req.method == HttpMethod::Get
                &&& registered(ops, operation_name(uri_path(req.uri))) == Some(operation)
                &&& uri_query_param(req.uri, "a"@) == Some(a)
                &&& uri_query_param(req.uri, "b"@) == Some(b)
            },
            RouteView::Respond(r) => {
                &&& r.close_connection == req.should_close()
                &&& r.status == (if registered(ops, operation_name(uri_path(req.uri))) is None {
                    HttpStatus::NotFound
                } else if req.method != HttpMethod::Get {
                    HttpStatus::MethodNotAllowed
                } else {
                    HttpStatus::BadRequest
                })
            },
        },
        (registered(ops, operation_name(uri_path(req.uri))) is Some && req.method
            == HttpMethod::Get && uri_query_param(req.uri, "a"@) is Some && uri_query_param(
            req.uri,
            "b"@,
        ) is Some && a_is_number && b_is_number) ==> route_of(
            ops,
            req,
            a_is_number,
            b_is_number,
        ) is Compute,
{
}

/// The answer to a computed request keeps the request's close flag and
/// says so in its `Connection` header; it is `200 OK` with the result's
/// text exactly when the operation succeeded, and `400` otherwise.
pub proof fn lemma_outcome_keeps_connection(req: RequestView, outcome: Result<Seq<char>, Seq<char>>)
    ensures
        outcome_response(req, outcome).close_connection == req.should_close(),
        outcome_response(req, outcome).headers[2] == ("Connection"@, if req.should_close() {
            "close"@
        } else {
            "keep-alive"@
        }),
        (outcome_response(req, outcome).status == HttpStatus::OK) == (outcome is Ok),
        outcome is Err ==> outcome_response(req, outcome).status == HttpStatus::BadRequest,
        outcome matches Ok(text) ==> outcome_response(req, outcome).body == encode_utf8(text),
{
}

/// The bad-request answer for an operand that is not a number: `intro`
/// names the operand, and the value follows in quotes.
fn not_a_number(intro: &str, value: &str, close: bool) -> (r: HttpResponse)
    ensures
        r@ == bad_request_response(intro@ + value@ + "'"@, close),
{
    let mut msg = String::from_str(intro);
    push_str(&mut msg, value);
    push_str(&mut msg, "'");
    HttpResponse::bad_request(msg.as_str(), close)
}

impl<T> Router<T> {
    pub fn new(registry: Arc<OperationRegistry<T>>) -> (r: Self)
        ensures
            r.operations() == registry@,
    {
        Self { registry }
    }

    /// The operations this router knows, in registration order.
    pub closed spec fn operations(&self) -> Seq<(Seq<char>, T)> {
        self.registry@
    }

    /// Routes a request: answers it, or names the operation and operands to
    /// compute with. `a_is_number` and `b_is_number` say whether the values
    /// of the query parameters `a` and `b` read as numbers.
    pub fn route(&self, req: &HttpRequest, a_is_number: bool, b_is_number: bool) -> (r: Route<
        '_,
        T,
    >)
        ensures
            r@ == route_of(self.operations(), req@, a_is_number, b_is_number),
    {
        let should_close = req.should_close();

        // Extract the operation name: "/add" -> "add".
        let path = req.path();
        let pv = chars_of(path);
        assert(pv@.subrange(0, pv@.len() as int) == pv@);
        let (lo, hi) = trim_bounds(&pv, 0, pv.len());
        let start = if lo < hi && pv[lo] == '/' {
            lo + 1
        } else {
            lo
        };
        let ghost p = pv@.subrange(lo as int, hi as int);
        assert(pv@.subrange(start as int, hi as int) == (if p.len() > 0 && p[0] == '/' {
            p.drop_first()
        } else {
            p
        }));
        let name = string_from_chars(&pv, start, hi);

        let operation = match self.registry.get(name.as_str()) {
            Some(op) => op,
            None => {
                return Route::Respond(HttpResponse::not_found("Unknown operation", should_close));
            },
        };

        // Only GET is supported for calculation.
        if req.method != HttpMethod::Get {
            return Route::Respond(HttpResponse::method_not_allowed(should_close));
        }

        let a = match req.get_query("a") {
            Some(v) => v,
            None => {
                return Route::Respond(
                    HttpResponse::bad_request("Missing parameter 'a'", should_close),
                );
            },
        };
        if !a_is_number {
            let intro = "Parameter 'a' is not a valid number: '";
            return Route::Respond(not_a_number(intro, a, should_close));
        }
        let b = match req.get_query("b") {
            Some(v) => v,
            None => {
                return Route::Respond(
                    HttpResponse::bad_request("Missing parameter 'b'", should_close),
                );
            },
        };
        if !b_is_number {
            let intro = "Parameter 'b' is not a valid number: '";
            return Route::Respond(not_a_number(intro, b, should_close));
        }
        Route::Compute { operation, a: String::from_str(a), b: String::from_str(b) }
    }

    /// Answers a request whose operation ran: `outcome` is the formatted
    /// result or the error the operation reported.
    pub fn respond(req: &HttpRequest, outcome: Result<String, CalcError>) -> (r: HttpResponse)
        ensures
            r@ == outcome_response(
                req@,
                match outcome {
                    Ok(text) => Ok(text@),
                    Err(e) => Err(e.message()),
                },
            ),
    {
        let should_close = req.should_close();
        match outcome {
            Ok(formatted) => HttpResponse::ok(formatted.as_str(), should_close),
            Err(CalcError::DivisionByZero) => HttpResponse::bad_request(
                "Division by zero",
                should_close,
            ),
            Err(e) => HttpResponse::bad_request(e.to_string().as_str(), should_close),
        }
    }
}

} // verus!
