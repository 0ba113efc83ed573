use vstd::prelude::*;
use vstd::utf8::encode_utf8;

use super::status::HttpStatus;
use crate::text::{decimal, lemma_parse_decimal, parse_usize, push_str, usize_to_string};

verus! {

/// Represents an HTTP/1.1 response with deterministic wire serialization.
#[derive(Debug, Clone)]
pub struct HttpResponse {
    pub status: HttpStatus,
    pub headers: Vec<(String, String)>,
    pub body: Vec<u8>,
    pub close_connection: bool,
}

/// What a response holds.
pub struct ResponseView {
    pub status: HttpStatus,
    pub headers: Seq<(Seq<char>, Seq<char>)>,
    pub body: Seq<u8>,
    pub close_connection: bool,
}

impl View for HttpResponse {
    type V = ResponseView;

    open spec fn view(&self) -> ResponseView {
        ResponseView {
            status: self.status,
            headers: self.headers@.map_values(|p: (String, String)| (p.0@, p.1@)),
            body: self.body@,
            close_connection: self.close_connection,
        }
    }
}

/// The headers every response starts with: its body length, its content
/// type, and whether the connection stays open.
pub open spec fn standard_headers(body_len: nat, close_connection: bool) -> Seq<
    (Seq<char>, Seq<char>),
> {
    seq![
        ("Content-Length"@, decimal(body_len)),
        ("Content-Type"@, "text/plain; charset=utf-8"@),
        ("Connection"@, if close_connection {
            "close"@
        } else {
            "keep-alive"@
        }),
    ]
}

/// The response with the given status and body, and the standard headers.
pub open spec fn response_with(status: HttpStatus, body: Seq<u8>, close_connection: bool) -> ResponseView {
    ResponseView {
        status,
        headers: standard_headers(body.len(), close_connection),
        body,
        close_connection,
    }
}

/// A `400 Bad Request` response that explains `msg`.
pub open spec fn bad_request_response(msg: Seq<char>, close_connection: bool) -> ResponseView {
    response_with(
        HttpStatus::BadRequest,
        encode_utf8("Bad Request: "@ + msg + "\n"@),
        close_connection,
    )
}

/// A `404 Not Found` response that explains `msg`.
pub open spec fn not_found_response(msg: Seq<char>, close_connection: bool) -> ResponseView {
    response_with(
        HttpStatus::NotFound,
        encode_utf8("Not Found: "@ + msg + "\n"@),
        close_connection,
    )
}

/// A `405 Method Not Allowed` response.
pub open spec fn method_not_allowed_response(close_connection: bool) -> ResponseView {
    response_with(
        HttpStatus::MethodNotAllowed,
        encode_utf8("Method Not Allowed\n"@),
        close_connection,
    )
}

/// The UTF-8 bytes of a text.
pub open spec fn utf8(s: Seq<char>) -> Seq<u8> {
    encode_utf8(s)
}

/// The wire form of header lines: `name: value` and CRLF for each.
pub open spec fn header_block(headers: Seq<(Seq<char>, Seq<char>)>) -> Seq<u8>
    decreases headers.len(),
{
    if headers.len() == 0 {
        Seq::empty()
    } else {
        let (k, v) = headers.last();
        header_block(headers.drop_last()) + utf8(k) + utf8(": "@) + utf8(v) + utf8("\r\n"@)
    }
}

/// The wire form of a response: status line, header lines, a blank line
/// and the body.
pub open spec fn wire_bytes(r: ResponseView) -> Seq<u8> {
    utf8("HTTP/1.1 "@) + utf8(r.status.code_text()) + utf8(" "@) + utf8(r.status.reason()) + utf8(
        "\r\n"@,
    ) + header_block(r.headers) + utf8("\r\n"@) + r.body
}

/// A response on the wire ends with its body, after the blank line that
/// closes its header section.
pub proof fn lemma_wire_ends_with_body(r: ResponseView)
    ensures
        wire_bytes(r).len() >= r.body.len(),
        wire_bytes(r).skip(wire_bytes(r).len() - r.body.len()) == r.body,
{
    let w = wire_bytes(r);
    let head = w.take(w.len() - r.body.len());
    assert(w == head + r.body);
}

/// A response keeps the close flag it is built with, whatever its status,
/// and says so in its `Connection` header; its first header declares the
/// length of its body in decimal.
pub proof fn lemma_response_keeps_close_flag(status: HttpStatus, body: Seq<u8>, close: bool)
    ensures
        response_with(status, body, close).close_connection == close,
        response_with(status, body, close).status == status,
        response_with(status, body, close).body == body,
        response_with(status, body, close).headers.len() == 3,
        response_with(status, body, close).headers[2] == ("Connection"@, if close {
            "close"@
        } else {
            "keep-alive"@
        }),
        response_with(status, body, close).headers[0] == ("Content-Length"@, decimal(body.len())),
{
}

/// Appends `bytes` to `out`.
fn push_bytes(out: &mut Vec<u8>, bytes: &[u8])
    ensures
        final(out)@ == old(out)@ + bytes@,
{
    let mut i: usize = 0;
    while i < bytes.len()
        invariant
            0 <= i <= bytes@.len(),
            out@ == old(out)@ + bytes@.take(i as int),
        decreases bytes@.len() - i,
    {
        out.push(bytes[i]);
        assert(bytes@.take(i + 1) == bytes@.take(i as int).push(bytes@[i as int]));
        i = i + 1;
    }
    assert(bytes@.take(bytes@.len() as int) == bytes@);
}

/// Appends the UTF-8 bytes of `s` to `out`.
fn push_utf8(out: &mut Vec<u8>, s: &str)
    ensures
        final(out)@ == old(out)@ + utf8(s@),
{
    push_bytes(out, s.as_bytes());
}

/// The UTF-8 bytes of `s` in a vector of their own.
fn utf8_vec(s: &str) -> (v: Vec<u8>)
    ensures
        v@ == utf8(s@),
{
    let mut v: Vec<u8> = Vec::new();
    push_utf8(&mut v, s);
    assert(v@ == Seq::<u8>::empty() + utf8(s@));
    v
}

/// The text `prefix + msg + "\n"` as bytes.
fn message_body(prefix: &str, msg: &str) -> (v: Vec<u8>)
    ensures
        v@ == encode_utf8(prefix@ + msg@ + "\n"@),
{
    let mut s = String::from_str(prefix);
    push_str(&mut s, msg);
    push_str(&mut s, "\n");
    utf8_vec(s.as_str())
}

impl HttpResponse {
    pub fn new(status: HttpStatus, body: Vec<u8>, close_connection: bool) -> (r: Self)
        ensures
            r@ == response_with(status, body@, close_connection),
            parse_usize(r@.headers[0].1) == Some(body@.len() as usize),
    {
        let mut resp = Self { status, headers: Vec::with_capacity(4), body, close_connection };
        let len_text = usize_to_string(resp.body.len());
        resp.add_header("Content-Length", len_text.as_str());
        resp.add_header("Content-Type", "text/plain; charset=utf-8");
        if close_connection {
            resp.add_header("Connection", "close");
        } else {
            resp.add_header("Connection", "keep-alive");
        }
        assert(resp@.headers =~= standard_headers(body@.len(), close_connection));
        proof {
            lemma_parse_decimal(body@.len() as usize);
        }
        resp
    }

    pub fn ok(body_str: &str, close_connection: bool) -> (r: Self)
        ensures
            r@ == response_with(HttpStatus::OK, encode_utf8(body_str@), close_connection),
    {
        Self::new(HttpStatus::OK, utf8_vec(body_str), close_connection)
    }

    pub fn bad_request(msg: &str, close_connection: bool) -> (r: Self)
        ensures
            r@ == bad_request_response(msg@, close_connection),
    {
        let body = message_body("Bad Request: ", msg);
        Self::new(HttpStatus::BadRequest, body, close_connection)
    }

    pub fn not_found(msg: &str, close_connection: bool) -> (r: Self)
        ensures
            r@ == not_found_response(msg@, close_connection),
    {
        let body = message_body("Not Found: ", msg);
        Self::new(HttpStatus::NotFound, body, close_connection)
    }

    pub fn method_not_allowed(close_connection: bool) -> (r: Self)
        ensures
            r@ == method_not_allowed_response(close_connection),
    {
        let body = utf8_vec("Method Not Allowed\n");
        Self::new(HttpStatus::MethodNotAllowed, body, close_connection)
    }

    pub fn add_header(&mut self, name: &str, value: &str)
        ensures
            final(self)@ == (ResponseView {
                headers: old(self)@.headers.push((name@, value@)),
                ..old(self)@
            }),
    {
        let ghost before = self@;
        self.headers.push((String::from_str(name), String::from_str(value)));
        assert(self@.headers =~= before.headers.push((name@, value@)));
    }

    /// Serialize the response into wire bytes for direct transmission.
    pub fn to_bytes(&self) -> (out: Vec<u8>)
        ensures
            out@ == wire_bytes(self@),
    {
        let mut out: Vec<u8> = Vec::new();
        push_utf8(&mut out, "HTTP/1.1 ");
        push_utf8(&mut out, self.status.code_str());
        push_utf8(&mut out, " ");
        push_utf8(&mut out, self.status.reason_phrase());
        push_utf8(&mut out, "\r\n");
        let ghost status_line = out@;
        let ghost headers = self@.headers;
        let mut i: usize = 0;
        while i < self.headers.len()
            invariant
                0 <= i <= self.headers@.len(),
                headers == self@.headers,
                out@ == status_line + header_block(headers.take(i as int)),
            decreases self.headers@.len() - i,
        {
            let (k, v) = (&self.headers[i].0, &self.headers[i].1);
            push_utf8(&mut out, k.as_str());
            push_utf8(&mut out, ": ");
            push_utf8(&mut out, v.as_str());
            push_utf8(&mut out, "\r\n");
            assert(headers.take(i + 1).drop_last() == headers.take(i as int));
            assert(headers.take(i + 1).last() == (k@, v@));
            i = i + 1;
        }
        assert(headers.take(i as int) == headers);
        push_utf8(&mut out, "\r\n");
        push_bytes(&mut out, self.body.as_slice());
        out
    }
}

} // verus!
