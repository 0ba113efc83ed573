use vstd::prelude::*;

use super::headers::{HeadersView, HttpHeaders};
use super::method::HttpMethod;
use super::version::HttpVersion;
use crate::text::{
    chars_of, find_char, first_index_of, lemma_first_index_of, range_equals, split_on,
};

verus! {

/// Represents a parsed HTTP request.
#[derive(Debug, Clone, PartialEq, Eq)]
pub struct HttpRequest {
    pub method: HttpMethod,
    pub raw_uri: String,
    pub version: HttpVersion,
    pub headers: HttpHeaders,
    pub body: Vec<u8>,
}

/// The contents of a request.
pub struct RequestView {
    pub method: HttpMethod,
    pub uri: Seq<char>,
    pub version: HttpVersion,
    pub headers: HeadersView,
    pub body: Seq<u8>,
}

impl RequestView {
    /// The connection ends after this request: the client asked for it, or
    /// spoke HTTP/1.0.
    pub open spec fn should_close(self) -> bool {
        self.headers.connection_close || self.version == HttpVersion::Http10
    }
}

impl View for HttpRequest {
    type V = RequestView;

    open spec fn view(&self) -> RequestView {
        RequestView {
            method: self.method,
            uri: self.raw_uri@,
            version: self.version,
            headers: self.headers@,
            body: self.body@,
        }
    }
}

/// The path part of a request target: everything before the first `?`.
pub open spec fn uri_path(uri: Seq<char>) -> Seq<char> {
    match first_index_of(uri, '?') {
        Some(i) => uri.take(i),
        None => uri,
    }
}

/// The query part of a request target: everything after the first `?`,
/// if there is one.
pub open spec fn uri_query(uri: Seq<char>) -> Option<Seq<char>> {
    match first_index_of(uri, '?') {
        Some(i) => Some(uri.skip(i + 1)),
        None => None,
    }
}

/// The value of a `key=value` pair for `key`: the pair is split at its
/// first `=`; a pair without `=` names nothing.
pub open spec fn pair_value(pair: Seq<char>, key: Seq<char>) -> Option<Seq<char>> {
    match first_index_of(pair, '=') {
        Some(i) => if pair.take(i) == key {
            Some(pair.skip(i + 1))
        } else {
            None
        },
        None => None,
    }
}

/// The value of the first pair in `pairs` that names `key`.
pub open spec fn first_pair_value(pairs: Seq<Seq<char>>, key: Seq<char>) -> Option<Seq<char>>
    decreases pairs.len(),
{
    if pairs.len() == 0 {
        None
    } else {
        match pair_value(pairs[0], key) {
            Some(v) => Some(v),
            None => first_pair_value(pairs.drop_first(), key),
        }
    }
}

/// The value of query parameter `key` in a request target: the first
/// `&`-separated pair of the query that names it.
pub open spec fn uri_query_param(uri: Seq<char>, key: Seq<char>) -> Option<Seq<char>> {
    match uri_query(uri) {
        Some(q) => first_pair_value(split_on(q, '&'), key),
        None => None,
    }
}

/// A request target is its path followed, when it has a query, by `?` and
/// the query; the path itself holds no `?`.
pub proof fn lemma_target_is_path_and_query(uri: Seq<char>)
    ensures
        !uri_path(uri).contains('?'),
        match uri_query(uri) {
            Some(q) => uri == uri_path(uri) + seq!['?'] + q,
            None => uri_path(uri) == uri,
        },
{
    lemma_first_index_of(uri, '?');
    if let Some(i) = first_index_of(uri, '?') {
        assert(uri == uri.take(i) + seq!['?'] + uri.skip(i + 1));
        assert forall|j: int| 0 <= j < i implies uri.take(i)[j] != '?' by {}
    }
}

impl HttpRequest {
    pub fn new(
        method: HttpMethod,
        raw_uri: String,
        version: HttpVersion,
        headers: HttpHeaders,
        body: Vec<u8>,
    ) -> (r: Self)
        ensures
            r.method == method,
            r.raw_uri@ == raw_uri@,
            r.version == version,
            r.headers@ == headers@,
            r.body@ == body@,
    {
        Self { method, raw_uri, version, headers, body }
    }

    /// The path slice of the request target.
    pub fn path(&self) -> (p: &str)
        ensures
            p@ == uri_path(self.raw_uri@),
    {
        let uri = self.raw_uri.as_str();
        let v = chars_of(uri);
        match find_char(&v, 0, v.len(), '?') {
            Some(pos) => {
                assert(v@.subrange(0, v@.len() as int) == v@);
                uri.substring_char(0, pos)
            },
            None => {
                assert(v@.subrange(0, v@.len() as int) == v@);
                uri
            },
        }
    }

    /// The query string slice of the request target.
    pub fn query_str(&self) -> (q: Option<&str>)
        ensures
            q is Some == uri_query(self.raw_uri@) is Some,
            q is Some ==> q.unwrap()@ == uri_query(self.raw_uri@).unwrap(),
    {
        let uri = self.raw_uri.as_str();
        let v = chars_of(uri);
        assert(v@.subrange(0, v@.len() as int) == v@);
        match find_char(&v, 0, v.len(), '?') {
            Some(pos) => Some(uri.substring_char(pos + 1, v.len())),
            None => None,
        }
    }

    /// Query parameter lookup on the query string.
    pub fn get_query(&self, target_key: &str) -> (r: Option<&str>)
        ensures
            r is Some == uri_query_param(self.raw_uri@, target_key@) is Some,
            r is Some ==> r.unwrap()@ == uri_query_param(self.raw_uri@, target_key@).unwrap(),
    {
        let uri = self.raw_uri.as_str();
        let v = chars_of(uri);
        let key = chars_of(target_key);
        let n = v.len();
        assert(v@.subrange(0, n as int) == v@);
        let q = match find_char(&v, 0, n, '?') {
            Some(q) => q,
            None => {
                return None;
            },
        };
        assert(v@.skip(q + 1) == v@.subrange(q + 1, n as int));
        let ghost goal = uri_query_param(self.raw_uri@, target_key@);
        let mut pos = q + 1;
        loop
            invariant
                q + 1 <= pos <= n,
                n == v@.len(),
                v@ == uri@,
                uri@ == self.raw_uri@,
                key@ == target_key@,
                goal == uri_query_param(self.raw_uri@, target_key@),
                goal == first_pair_value(split_on(v@.subrange(pos as int, n as int), '&'), key@),
            decreases n - pos,
        {
            let ghost rest = v@.subrange(pos as int, n as int);
            let end = match find_char(&v, pos, n, '&') {
                Some(k) => k,
                None => n,
            };
            let ghost piece = v@.subrange(pos as int, end as int);
            proof {
                if end < n {
                    assert(rest.take(end - pos) == piece);
                    assert(rest.skip(end - pos + 1) == v@.subrange(end + 1, n as int));
                } else {
                    assert(rest == piece);
                }
            }
            let ghost pieces = split_on(rest, '&');
            proof {
                if end < n {
                    assert(pieces == seq![piece] + split_on(v@.subrange(end + 1, n as int), '&'));
                    assert(pieces.drop_first() == split_on(v@.subrange(end + 1, n as int), '&'));
                } else {
                    assert(pieces == seq![piece]);
                    assert(pieces.drop_first() =~= Seq::<Seq<char>>::empty());
                }
                assert(pieces[0] == piece);
            }
            match find_char(&v, pos, end, '=') {
                Some(eq) => {
                    assert(piece.take(eq - pos) == v@.subrange(pos as int, eq as int));
                    assert(piece.skip(eq - pos + 1) == v@.subrange(eq + 1, end as int));
                    if range_equals(&v, pos, eq, &key) {
                        assert(pair_value(piece, key@) == Some(v@.subrange(eq + 1, end as int)));
                        assert(split_on(rest, '&')[0] == piece);
                        return Some(uri.substring_char(eq + 1, end));
                    }
                    assert(pair_value(piece, key@) is None);
                },
                None => {
                    assert(pair_value(piece, key@) is None);
                },
            }
            assert(goal == first_pair_value(pieces.drop_first(), key@));
            if end == n {
                return None;
            }
            pos = end + 1;
        }
    }

    /// Determine if connection should close based on headers or version.
    pub fn should_close(&self) -> (b: bool)
        ensures
            b == self@.should_close(),
    {
        self.headers.is_connection_close() || self.version == HttpVersion::Http10
    }
}

} // verus!
