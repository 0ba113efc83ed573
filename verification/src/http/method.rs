use vstd::prelude::*;

use crate::text::{chars_of, range_equals_str};

verus! {

/// Supported HTTP verbs; anything else is `Other`.
#[derive(Debug, Clone, Copy, PartialEq, Eq, Structural)]
pub enum HttpMethod {
    Get,
    Head,
    Post,
    Put,
    Delete,
    Connect,
    Options,
    Trace,
    Patch,
    Other,
}

impl HttpMethod {
    /// The method a request-line token names. Method names are case-sensitive.
    pub open spec fn from_token(s: Seq<char>) -> HttpMethod {
        if s == "GET"@ {
            HttpMethod::Get
        } else if s == "HEAD"@ {
            HttpMethod::Head
        } else if s == "POST"@ {
            HttpMethod::Post
        } else if s == "PUT"@ {
            HttpMethod::Put
        } else if s == "DELETE"@ {
            HttpMethod::Delete
        } else if s == "CONNECT"@ {
            HttpMethod::Connect
        } else if s == "OPTIONS"@ {
            HttpMethod::Options
        } else if s == "TRACE"@ {
            HttpMethod::Trace
        } else if s == "PATCH"@ {
            HttpMethod::Patch
        } else {
            HttpMethod::Other
        }
    }

    /// The text that stands for this method.
    pub open spec fn token(self) -> Seq<char> {
        match self {
            HttpMethod::Get => "GET"@,
            HttpMethod::Head => "HEAD"@,
            HttpMethod::Post => "POST"@,
            HttpMethod::Put => "PUT"@,
            HttpMethod::Delete => "DELETE"@,
            HttpMethod::Connect => "CONNECT"@,
            HttpMethod::Options => "OPTIONS"@,
            HttpMethod::Trace => "TRACE"@,
            HttpMethod::Patch => "PATCH"@,
            HttpMethod::Other => "OTHER"@,
        }
    }

    /// The method named by the characters `v[lo..hi]`.
    pub(crate) fn from_range(v: &Vec<char>, lo: usize, hi: usize) -> (r: Self)
        requires
            lo <= hi <= v@.len(),
        ensures
            r == Self::from_token(v@.subrange(lo as int, hi as int)),
    {
        if range_equals_str(v, lo, hi, "GET") {
            HttpMethod::Get
        } else if range_equals_str(v, lo, hi, "HEAD") {
            HttpMethod::Head
        } else if range_equals_str(v, lo, hi, "POST") {
            HttpMethod::Post
        } else if range_equals_str(v, lo, hi, "PUT") {
            HttpMethod::Put
        } else if range_equals_str(v, lo, hi, "DELETE") {
            HttpMethod::Delete
        } else if range_equals_str(v, lo, hi, "CONNECT") {
            HttpMethod::Connect
        } else if range_equals_str(v, lo, hi, "OPTIONS") {
            HttpMethod::Options
        } else if range_equals_str(v, lo, hi, "TRACE") {
            HttpMethod::Trace
        } else if range_equals_str(v, lo, hi, "PATCH") {
            HttpMethod::Patch
        } else {
            HttpMethod::Other
        }
    }

    /// The method a string slice names.
    pub fn from_str_bytes(s: &str) -> (r: Self)
        ensures
            r == Self::from_token(s@),
    {
        let v = chars_of(s);
        assert(v@.subrange(0, v@.len() as int) == v@);
        Self::from_range(&v, 0, v.len())
    }

    pub fn as_str(&self) -> (s: &'static str)
        ensures
            s@ == self.token(),
    {
        match self {
            HttpMethod::Get => "GET",
            HttpMethod::Head => "HEAD",
            HttpMethod::Post => "POST",
            HttpMethod::Put => "PUT",
            HttpMethod::Delete => "DELETE",
            HttpMethod::Connect => "CONNECT",
            HttpMethod::Options => "OPTIONS",
            HttpMethod::Trace => "TRACE",
            HttpMethod::Patch => "PATCH",
            HttpMethod::Other => "OTHER",
        }
    }
}

/// Reading back the text of a named method gives the method.
pub proof fn lemma_method_round_trip(m: HttpMethod)
    requires
        m != HttpMethod::Other,
    ensures
        HttpMethod::from_token(m.token()) == m,
{
    reveal_strlit("GET");
    reveal_strlit("HEAD");
    reveal_strlit("POST");
    reveal_strlit("PUT");
    reveal_strlit("DELETE");
    reveal_strlit("CONNECT");
    reveal_strlit("OPTIONS");
    reveal_strlit("TRACE");
    reveal_strlit("PATCH");
    assert("GET"@[0] == 'G' && "HEAD"@[0] == 'H' && "POST"@[0] == 'P' && "PUT"@[0] == 'P');
    assert("DELETE"@[0] == 'D' && "CONNECT"@[0] == 'C' && "OPTIONS"@[0] == 'O');
    assert("TRACE"@[0] == 'T' && "PATCH"@[0] == 'P');
    assert("PUT"@[1] == 'U' && "POST"@[1] == 'O');
}

} // verus!
