use vstd::prelude::*;

use crate::text::{chars_of, range_equals_str};

verus! {

/// Supported HTTP protocol versions.
#[derive(Debug, Clone, Copy, PartialEq, Eq, Structural)]
pub enum HttpVersion {
    Http11,
    Http10,
    Other,
}

impl HttpVersion {
    /// The version a protocol token names: `HTTP/1.1`, `HTTP/1.0`, or
    /// anything else.
    pub open spec fn from_token(s: Seq<char>) -> HttpVersion {
        if s == "HTTP/1.1"@ {
            HttpVersion::Http11
        } else if s == "HTTP/1.0"@ {
            HttpVersion::Http10
        } else {
            HttpVersion::Other
        }
    }

    /// The text that stands for this version.
    pub open spec fn token(self) -> Seq<char> {
        match self {
            HttpVersion::Http11 => "HTTP/1.1"@,
            HttpVersion::Http10 => "HTTP/1.0"@,
            HttpVersion::Other => "HTTP/Other"@,
        }
    }

    /// The version named by the characters `v[lo..hi]`.
    pub(crate) fn from_range(v: &Vec<char>, lo: usize, hi: usize) -> (r: Self)
        requires
            lo <= hi <= v@.len(),
        ensures
            r == Self::from_token(v@.subrange(lo as int, hi as int)),
    {
        if range_equals_str(v, lo, hi, "HTTP/1.1") {
            HttpVersion::Http11
        } else if range_equals_str(v, lo, hi, "HTTP/1.0") {
            HttpVersion::Http10
        } else {
            HttpVersion::Other
        }
    }

    /// The version a string slice names.
    pub fn from_str_bytes(s: &str) -> (r: Self)
        ensures
            r == Self::from_token(s@),
    {
        let v = chars_of(s);
        assert(v@.subrange(0, v@.len() as int) == v@);
        Self::from_range(&v, 0, v.len())
    }

    pub fn as_str(&self) -> (s: &'static str)
        ensures
            s@ == self.token(),
    {
        match self {
            HttpVersion::Http11 => "HTTP/1.1",
            HttpVersion::Http10 => "HTTP/1.0",
            HttpVersion::Other => "HTTP/Other",
        }
    }
}

impl Default for HttpVersion {
    /// HTTP/1.1 is the version assumed when none is given.
    fn default() -> (v: Self)
        ensures
            v == HttpVersion::Http11,
    {
        HttpVersion::Http11
    }
}

/// Reading back the text of a version gives the version.
pub proof fn lemma_version_round_trip(v: HttpVersion)
    ensures
        HttpVersion::from_token(v.token()) == v,
{
    reveal_strlit("HTTP/1.1");
    reveal_strlit("HTTP/1.0");
    reveal_strlit("HTTP/Other");
    assert("HTTP/1.1"@[7] != "HTTP/1.0"@[7]);
}

} // verus!
