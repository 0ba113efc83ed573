use vstd::prelude::*;

use crate::text::decimal;

verus! {

/// The HTTP status codes this server answers with.
#[derive(Debug, Clone, Copy, PartialEq, Eq, Structural)]
pub enum HttpStatus {
    OK,
    BadRequest,
    NotFound,
    MethodNotAllowed,
}

impl HttpStatus {
    /// The numeric status code.
    pub open spec fn spec_code(self) -> u16 {
        match self {
            HttpStatus::OK => 200,
            HttpStatus::BadRequest => 400,
            HttpStatus::NotFound => 404,
            HttpStatus::MethodNotAllowed => 405,
        }
    }

    /// The status code as it is written in a status line.
    pub open spec fn code_text(self) -> Seq<char> {
        match self {
            HttpStatus::OK => "200"@,
            HttpStatus::BadRequest => "400"@,
            HttpStatus::NotFound => "404"@,
            HttpStatus::MethodNotAllowed => "405"@,
        }
    }

    /// The reason phrase that follows the code in a status line.
    pub open spec fn reason(self) -> Seq<char> {
        match self {
            HttpStatus::OK => "OK"@,
            HttpStatus::BadRequest => "Bad Request"@,
            HttpStatus::NotFound => "Not Found"@,
            HttpStatus::MethodNotAllowed => "Method Not Allowed"@,
        }
    }

    pub fn code(&self) -> (c: u16)
        ensures
            c == self.spec_code(),
    {
        match self {
            HttpStatus::OK => 200,
            HttpStatus::BadRequest => 400,
            HttpStatus::NotFound => 404,
            HttpStatus::MethodNotAllowed => 405,
        }
    }

    pub fn code_str(&self) -> (s: &'static str)
        ensures
            s@ == self.code_text(),
    {
        match self {
            HttpStatus::OK => "200",
            HttpStatus::BadRequest => "400",
            HttpStatus::NotFound => "404",
            HttpStatus::MethodNotAllowed => "405",
        }
    }

    pub fn reason_phrase(&self) -> (s: &'static str)
        ensures
            s@ == self.reason(),
    {
        match self {
            HttpStatus::OK => "OK",
            HttpStatus::BadRequest => "Bad Request",
            HttpStatus::NotFound => "Not Found",
            HttpStatus::MethodNotAllowed => "Method Not Allowed",
        }
    }
}

/// The code written in a status line is the status's numeric code in
/// decimal, and a numeric code is one of the three-digit HTTP codes.
pub proof fn lemma_code_text_is_code(s: HttpStatus)
    ensures
        s.code_text() == decimal(s.spec_code() as nat),
        100 <= s.spec_code() <= 599,
        (s == HttpStatus::OK) == (s.spec_code() == 200),
{
    reveal_with_fuel(decimal, 3);
    reveal_strlit("200");
    reveal_strlit("400");
    reveal_strlit("404");
    reveal_strlit("405");
    let n = s.spec_code() as nat;
    assert(decimal(n) == seq![
        crate::text::digit_char(n / 100),
        crate::text::digit_char((n / 10) % 10),
        crate::text::digit_char(n % 10),
    ]);
}

} // verus!
