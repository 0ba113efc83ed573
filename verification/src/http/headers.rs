use vstd::prelude::*;
use vstd::std_specs::cmp::PartialEqSpecImpl;

use crate::text::{
    ascii_lower, chars_of, eq_ignore_ascii_case, eq_ignore_case_range, lowercase_string,
    parse_usize, parse_usize_range, string_from_chars, trim, trim_bounds,
};

verus! {

/// HTTP headers collection with fast-path indexing for critical HTTP/1.1 headers.
/// Two collections are equal when they hold the same headers; the text a
/// `Content-Length` arrived as plays no part, only the length it declares.
#[derive(Debug, Clone, Eq)]
pub struct HttpHeaders {
    host: Option<String>,
    content_length: Option<usize>,
    content_length_text: Option<String>,
    connection_close: bool,
    other: Vec<(String, String)>,
}

/// What a header collection holds: the three headers that the server
/// interprets, and every other header in arrival order, its name in lower case.
pub struct HeadersView {
    pub host: Option<Seq<char>>,
    pub content_length: Option<usize>,
    pub content_length_text: Option<Seq<char>>,
    pub connection_close: bool,
    pub other: Seq<(Seq<char>, Seq<char>)>,
}

/// The value of the first pair in `pairs` whose name is `key`.
pub open spec fn first_value(pairs: Seq<(Seq<char>, Seq<char>)>, key: Seq<char>) -> Option<
    Seq<char>,
>
    decreases pairs.len(),
{
    if pairs.len() == 0 {
        None
    } else if pairs[0].0 == key {
        Some(pairs[0].1)
    } else {
        first_value(pairs.drop_first(), key)
    }
}

/// `first_value` is the value found by a forward scan stopping at index `i`.
proof fn lemma_first_value_at(pairs: Seq<(Seq<char>, Seq<char>)>, key: Seq<char>, i: int)
    requires
        0 <= i <= pairs.len(),
        forall|j: int| 0 <= j < i ==> (#[trigger] pairs[j]).0 != key,
        i < pairs.len() ==> pairs[i].0 == key,
    ensures
        first_value(pairs, key) == (if i < pairs.len() {
            Some(pairs[i].1)
        } else {
            None::<Seq<char>>
        }),
    decreases pairs.len(),
{
    if pairs.len() > 0 && i > 0 {
        assert(pairs[0].0 != key);
        assert forall|j: int| 0 <= j < i - 1 implies (#[trigger] pairs.drop_first()[j]).0 != key by {
            assert(pairs.drop_first()[j] == pairs[j + 1]);
        }
        lemma_first_value_at(pairs.drop_first(), key, i - 1);
    }
}

impl HeadersView {
    /// No header at all.
    pub open spec fn empty() -> HeadersView {
        HeadersView {
            host: None,
            content_length: None,
            content_length_text: None,
            connection_close: false,
            other: Seq::empty(),
        }
    }

    /// The headers after `name: value` arrived. Both parts are trimmed;
    /// `Host`, `Content-Length` and `Connection` (in any ASCII case) replace
    /// what they stood for before, and any other header is appended under its
    /// lower-case name.
    pub open spec fn inserted(self, name: Seq<char>, value: Seq<char>) -> HeadersView {
        let n = trim(name);
        let v = trim(value);
        if eq_ignore_ascii_case(n, "host"@) {
            HeadersView { host: Some(v), ..self }
        } else if eq_ignore_ascii_case(n, "content-length"@) {
            HeadersView { content_length: parse_usize(v), content_length_text: Some(v), ..self }
        } else if eq_ignore_ascii_case(n, "connection"@) {
            HeadersView { connection_close: eq_ignore_ascii_case(v, "close"@), ..self }
        } else {
            HeadersView { other: self.other.push((ascii_lower(n), v)), ..self }
        }
    }

    /// What a lookup of `name` answers: the `Host` value, the
    /// `Content-Length` value as it arrived (trimmed), `close` or
    /// `keep-alive` for `Connection`, and otherwise the value of the first
    /// other header of that name.
    pub open spec fn lookup(self, name: Seq<char>) -> Option<Seq<char>> {
        if eq_ignore_ascii_case(name, "host"@) {
            self.host
        } else if eq_ignore_ascii_case(name, "content-length"@) {
            self.content_length_text
        } else if eq_ignore_ascii_case(name, "connection"@) {
            if self.connection_close {
                Some("close"@)
            } else {
                Some("keep-alive"@)
            }
        } else {
            first_value(self.other, ascii_lower(name))
        }
    }

    /// A `Host` header is present with a non-empty value.
    pub open spec fn has_valid_host(self) -> bool {
        match self.host {
            Some(h) => h.len() > 0,
            None => false,
        }
    }
}

/// Appending a pair keeps what an earlier pair of the same name gave, and
/// otherwise makes the new pair the one found.
proof fn lemma_first_value_push(
    pairs: Seq<(Seq<char>, Seq<char>)>,
    p: (Seq<char>, Seq<char>),
    key: Seq<char>,
)
    ensures
        first_value(pairs.push(p), key) == (if first_value(pairs, key) is Some {
            first_value(pairs, key)
        } else if p.0 == key {
            Some(p.1)
        } else {
            None::<Seq<char>>
        }),
    decreases pairs.len(),
{
    if pairs.len() > 0 {
        assert(pairs.push(p).drop_first() == pairs.drop_first().push(p));
        assert(pairs.push(p)[0] == pairs[0]);
        lemma_first_value_push(pairs.drop_first(), p, key);
        if pairs[0].0 != key {
            assert(first_value(pairs.push(p), key) == first_value(pairs.drop_first().push(p), key));
            assert(first_value(pairs, key) == first_value(pairs.drop_first(), key));
        }
    } else {
        assert(pairs.push(p).drop_first() =~= Seq::<(Seq<char>, Seq<char>)>::empty());
        assert(pairs.push(p)[0] == p);
        assert(first_value(pairs.push(p).drop_first(), key) is None);
    }
}

/// The names the headers treat specially are told apart by their length.
proof fn lemma_special_names()
    ensures
        ascii_lower("host"@).len() == 4,
        ascii_lower("content-length"@).len() == 14,
        ascii_lower("connection"@).len() == 10,
{
    reveal_strlit("host");
    reveal_strlit("content-length");
    reveal_strlit("connection");
}

/// After a `Host` header arrived, a lookup of `host` in any ASCII case gives
/// its trimmed value, and the host is valid exactly when that value is not
/// empty.
pub proof fn lemma_host_after_insert(
    h: HeadersView,
    name: Seq<char>,
    value: Seq<char>,
    query: Seq<char>,
)
    requires
        eq_ignore_ascii_case(trim(name), "host"@),
        eq_ignore_ascii_case(query, "host"@),
    ensures
        h.inserted(name, value).lookup(query) == Some(trim(value)),
        h.inserted(name, value).has_valid_host() == (trim(value).len() > 0),
{
}

/// After `Content-Length: value` arrived, the declared length is `value`
/// read as a decimal number, or none when it is not one, and a lookup of
/// `content-length` in any ASCII case gives the trimmed `value`.
pub proof fn lemma_content_length_after_insert(h: HeadersView, name: Seq<char>, value: Seq<char>)
    requires
        eq_ignore_ascii_case(trim(name), "content-length"@),
    ensures
        h.inserted(name, value).content_length == parse_usize(trim(value)),
        forall|query: Seq<char>|
            eq_ignore_ascii_case(query, "content-length"@) ==> #[trigger] h.inserted(
                name,
                value,
            ).lookup(query) == Some(trim(value)),
{
    lemma_special_names();
}

/// After `Connection: value` arrived, the connection closes exactly when
/// `value` is `close` in any ASCII case, and a lookup of `connection` says so.
pub proof fn lemma_connection_after_insert(
    h: HeadersView,
    name: Seq<char>,
    value: Seq<char>,
    query: Seq<char>,
)
    requires
        eq_ignore_ascii_case(trim(name), "connection"@),
        eq_ignore_ascii_case(query, "connection"@),
    ensures
        h.inserted(name, value).connection_close == eq_ignore_ascii_case(trim(value), "close"@),
        h.inserted(name, value).lookup(query) == Some(
            if eq_ignore_ascii_case(trim(value), "close"@) {
                "close"@
            } else {
                "keep-alive"@
            },
        ),
{
    lemma_special_names();
}

/// Any other header can be looked up by its name in any ASCII case. The
/// first header to arrive under a name is the one found: a later one with
/// the same name changes no lookup.
pub proof fn lemma_other_header_after_insert(
    h: HeadersView,
    name: Seq<char>,
    value: Seq<char>,
    query: Seq<char>,
)
    requires
        !eq_ignore_ascii_case(trim(name), "host"@),
        !eq_ignore_ascii_case(trim(name), "content-length"@),
        !eq_ignore_ascii_case(trim(name), "connection"@),
        eq_ignore_ascii_case(query, trim(name)),
    ensures
        h.inserted(name, value).lookup(query) == (if h.lookup(query) is Some {
            h.lookup(query)
        } else {
            Some(trim(value))
        }),
{
    lemma_first_value_push(h.other, (ascii_lower(trim(name)), trim(value)), ascii_lower(query));
}

/// The headers after the `(name, value)` pairs arrived in order.
pub open spec fn inserted_all(h: HeadersView, pairs: Seq<(Seq<char>, Seq<char>)>) -> HeadersView
    decreases pairs.len(),
{
    if pairs.len() == 0 {
        h
    } else {
        inserted_all(h, pairs.drop_last()).inserted(pairs.last().0, pairs.last().1)
    }
}

/// The trimmed value of the last pair whose trimmed name is `key` in any
/// ASCII case.
pub open spec fn last_value_of(pairs: Seq<(Seq<char>, Seq<char>)>, key: Seq<char>) -> Option<
    Seq<char>,
>
    decreases pairs.len(),
{
    if pairs.len() == 0 {
        None
    } else if eq_ignore_ascii_case(trim(pairs.last().0), key) {
        Some(trim(pairs.last().1))
    } else {
        last_value_of(pairs.drop_last(), key)
    }
}

/// Over any sequence of arrivals, `Host`, `Content-Length` and `Connection`
/// each reflect the last header of that name: the host is valid exactly when
/// the last `Host` value is not empty, the length is the last
/// `Content-Length` value read as a number, and the connection closes
/// exactly when the last `Connection` value is `close`. Without such a
/// header, what `h` held stays.
pub proof fn lemma_headers_after_inserts(h: HeadersView, pairs: Seq<(Seq<char>, Seq<char>)>)
    ensures
        inserted_all(h, pairs).host == (match last_value_of(pairs, "host"@) {
            Some(v) => Some(v),
            None => h.host,
        }),
        inserted_all(h, pairs).content_length == (match last_value_of(pairs, "content-length"@) {
            Some(v) => parse_usize(v),
            None => h.content_length,
        }),
        inserted_all(h, pairs).content_length_text == (match last_value_of(
            pairs,
            "content-length"@,
        ) {
            Some(v) => Some(v),
            None => h.content_length_text,
        }),
        inserted_all(h, pairs).connection_close == (match last_value_of(pairs, "connection"@) {
            Some(v) => eq_ignore_ascii_case(v, "close"@),
            None => h.connection_close,
        }),
    decreases pairs.len(),
{
    if pairs.len() > 0 {
        lemma_headers_after_inserts(h, pairs.drop_last());
        lemma_special_names();
    }
}

/// Starting from no headers: whether the host is valid, the declared
/// length and whether the connection closes are read from the last `Host`,
/// `Content-Length` and `Connection` headers that arrived.
pub proof fn lemma_fresh_headers_after_inserts(pairs: Seq<(Seq<char>, Seq<char>)>)
    ensures
        inserted_all(HeadersView::empty(), pairs).has_valid_host() == (last_value_of(
            pairs,
            "host"@,
        ) matches Some(v) && v.len() > 0),
        inserted_all(HeadersView::empty(), pairs).content_length == (match last_value_of(
            pairs,
            "content-length"@,
        ) {
            Some(v) => parse_usize(v),
            None => None,
        }),
        inserted_all(HeadersView::empty(), pairs).connection_close == (last_value_of(
            pairs,
            "connection"@,
        ) matches Some(v) && eq_ignore_ascii_case(v, "close"@)),
{
    lemma_headers_after_inserts(HeadersView::empty(), pairs);
}

impl View for HttpHeaders {
    type V = HeadersView;

    closed spec fn view(&self) -> HeadersView {
        HeadersView {
            host: match self.host {
                Some(h) => Some(h@),
                None => None,
            },
            content_length: self.content_length,
            content_length_text: match self.content_length_text {
                Some(t) => Some(t@),
                None => None,
            },
            connection_close: self.connection_close,
            other: pairs_view(self.other@),
        }
    }
}

impl HttpHeaders {
    pub fn new() -> (h: Self)
        ensures
            h@ == HeadersView::empty(),
    {
        let h = Self {
            host: None,
            content_length: None,
            content_length_text: None,
            connection_close: false,
            other: Vec::with_capacity(4),
        };
        assert(h@.other =~= Seq::<(Seq<char>, Seq<char>)>::empty());
        h
    }

    /// Inserts the header whose name is `nv[nlo..nhi]` and whose value is
    /// `vv[vlo..vhi]`.
    pub(crate) fn insert_range(
        &mut self,
        nv: &Vec<char>,
        nlo: usize,
        nhi: usize,
        vv: &Vec<char>,
        vlo: usize,
        vhi: usize,
    )
        requires
            nlo <= nhi <= nv@.len(),
            vlo <= vhi <= vv@.len(),
        ensures
            final(self)@ == old(self)@.inserted(
                nv@.subrange(nlo as int, nhi as int),
                vv@.subrange(vlo as int, vhi as int),
            ),
    {
        let (na, nb) = trim_bounds(nv, nlo, nhi);
        let (va, vb) = trim_bounds(vv, vlo, vhi);
        let ghost old_view = self@;
        if eq_ignore_case_range(nv, na, nb, &chars_of("host")) {
            self.host = Some(string_from_chars(vv, va, vb));
        } else if eq_ignore_case_range(nv, na, nb, &chars_of("content-length")) {
            self.content_length = parse_usize_range(vv, va, vb);
            self.content_length_text = Some(string_from_chars(vv, va, vb));
        } else if eq_ignore_case_range(nv, na, nb, &chars_of("connection")) {
            self.connection_close = eq_ignore_case_range(vv, va, vb, &chars_of("close"));
        } else {
            let key = lowercase_string(nv, na, nb);
            let value = string_from_chars(vv, va, vb);
            self.other.push((key, value));
            assert(self@.other =~= old_view.other.push(
                (ascii_lower(nv@.subrange(na as int, nb as int)), vv@.subrange(va as int, vb as int)),
            ));
        }
    }

    /// Insert or append a header name/value pair with fast-path categorization.
    pub fn insert(&mut self, name: &str, value: &str)
        ensures
            final(self)@ == old(self)@.inserted(name@, value@),
    {
        let nv = chars_of(name);
        let vv = chars_of(value);
        self.insert_range(&nv, 0, nv.len(), &vv, 0, vv.len());
        assert(nv@.subrange(0, nv@.len() as int) == name@);
        assert(vv@.subrange(0, vv@.len() as int) == value@);
    }

    /// Look up an arbitrary header by case-insensitive name.
    pub fn get(&self, name: &str) -> (r: Option<&str>)
        ensures
            r is Some == self@.lookup(name@) is Some,
            r is Some ==> r.unwrap()@ == self@.lookup(name@).unwrap(),
    {
        let nv = chars_of(name);
        assert(nv@.subrange(0, nv@.len() as int) == name@);
        if eq_ignore_case_range(&nv, 0, nv.len(), &chars_of("host")) {
            return match &self.host {
                Some(h) => Some(h.as_str()),
                None => None,
            };
        }
        if eq_ignore_case_range(&nv, 0, nv.len(), &chars_of("content-length")) {
            return match &self.content_length_text {
                Some(t) => Some(t.as_str()),
                None => None,
            };
        }
        if eq_ignore_case_range(&nv, 0, nv.len(), &chars_of("connection")) {
            return if self.connection_close {
                Some("close")
            } else {
                Some("keep-alive")
            };
        }
        let lower = lowercase_string(&nv, 0, nv.len());
        let ghost pairs = self@.other;
        let mut i: usize = 0;
        while i < self.other.len()
            invariant
                0 <= i <= self.other@.len(),
                pairs == self@.other,
                lower@ == ascii_lower(name@),
                !eq_ignore_ascii_case(name@, "host"@),
                !eq_ignore_ascii_case(name@, "content-length"@),
                !eq_ignore_ascii_case(name@, "connection"@),
                forall|j: int| 0 <= j < i ==> (#[trigger] pairs[j]).0 != lower@,
            decreases self.other@.len() - i,
        {
            assert(pairs[i as int] == (self.other@[i as int].0@, self.other@[i as int].1@));
            if self.other[i].0 == lower {
                proof {
                    lemma_first_value_at(pairs, lower@, i as int);
                }
                return Some(self.other[i].1.as_str());
            }
            i = i + 1;
        }
        proof {
            lemma_first_value_at(pairs, lower@, pairs.len() as int);
        }
        None
    }

    /// Check if Host header exists and is non-empty (RFC 7230 Section 5.4 requirement).
    pub fn has_valid_host(&self) -> (b: bool)
        ensures
            b == self@.has_valid_host(),
    {
        match &self.host {
            Some(val) => !val.as_str().is_empty(),
            None => false,
        }
    }

    /// Fast pre-parsed Content-Length lookup.
    pub fn content_length(&self) -> (r: Option<usize>)
        ensures
            r == self@.content_length,
    {
        self.content_length
    }

    /// Fast O(1) check if the client requested connection closure via 'Connection: close'.
    pub fn is_connection_close(&self) -> (b: bool)
        ensures
            b == self@.connection_close,
    {
        self.connection_close
    }
}

impl HeadersView {
    /// Equality of header collections: the same host, declared length,
    /// connection flag and other headers.
    pub open spec fn same_headers(self, other: HeadersView) -> bool {
        &&& self.host == other.host
        &&& self.content_length == other.content_length
        &&& self.connection_close == other.connection_close
        &&& self.other == other.other
    }
}

/// The texts of a list of header pairs.
pub open spec fn pairs_view(s: Seq<(String, String)>) -> Seq<(Seq<char>, Seq<char>)> {
    s.map_values(|p: (String, String)| (p.0@, p.1@))
}

/// Whether two lists of header pairs hold the same pairs in the same order.
fn same_pairs(a: &Vec<(String, String)>, b: &Vec<(String, String)>) -> (r: bool)
    ensures
        r == (pairs_view(a@) == pairs_view(b@)),
{
    let ghost va = pairs_view(a@);
    let ghost vb = pairs_view(b@);
    if a.len() != b.len() {
        assert(va.len() != vb.len());
        return false;
    }
    let mut i: usize = 0;
    while i < a.len()
        invariant
            a@.len() == b@.len(),
            0 <= i <= a@.len(),
            va == pairs_view(a@),
            vb == pairs_view(b@),
            forall|j: int| 0 <= j < i ==> va[j] == vb[j],
        decreases a@.len() - i,
    {
        assert(va[i as int] == (a@[i as int].0@, a@[i as int].1@));
        assert(vb[i as int] == (b@[i as int].0@, b@[i as int].1@));
        if !(a[i].0 == b[i].0 && a[i].1 == b[i].1) {
            return false;
        }
        i = i + 1;
    }
    assert(va =~= vb);
    true
}

impl PartialEq for HttpHeaders {
    fn eq(&self, other: &Self) -> (r: bool) {
        let same_host = match &self.host {
            Some(a) => match &other.host {
                Some(b) => *a == *b,
                None => false,
            },
            None => other.host.is_none(),
        };
        let same_length = match (self.content_length, other.content_length) {
            (Some(a), Some(b)) => a == b,
            (None, None) => true,
            _ => false,
        };
        let same_other = same_pairs(&self.other, &other.other);
        assert(same_host == (self@.host == other@.host));
        assert(same_length == (self@.content_length == other@.content_length));
        same_host && same_length && self.connection_close == other.connection_close && same_other
    }
}

impl PartialEqSpecImpl for HttpHeaders {
    open spec fn obeys_eq_spec() -> bool {
        true
    }

    open spec fn eq_spec(&self, other: &HttpHeaders) -> bool {
        self@.same_headers(other@)
    }
}

impl Default for HttpHeaders {
    fn default() -> (h: Self)
        ensures
            h@ == HeadersView::empty(),
    {
        Self::new()
    }
}

} // verus!
