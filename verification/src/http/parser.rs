use vstd::prelude::*;
use vstd::utf8::{decode_utf8, encode_utf8, encode_utf8_decode_utf8, valid_utf8};

use super::headers::{HeadersView, HttpHeaders};
use super::method::HttpMethod;
use super::request::{HttpRequest, RequestView};
use super::version::HttpVersion;
use crate::text::{
    chars_of, find_char, first_index_of, next_word, split_on, string_from_chars, trim,
    trim_bounds, words,
};

verus! {

/// The outcome of an attempt to parse one request from the front of a buffer.
#[derive(Debug, PartialEq, Eq)]
pub enum ParseStatus {
    /// A whole request, and the number of bytes of the buffer it occupies.
    Complete(HttpRequest, usize),
    /// The buffer does not hold a whole request yet.
    NeedMoreData,
    /// The request is framed but cannot be served; its bytes can be skipped.
    RecoverableError { error: String, consumed_bytes: usize, close_connection: bool },
    /// The stream cannot be understood any further.
    FatalError(String),
}

/// What a parse outcome holds.
pub enum ParseView {
    Complete(RequestView, int),
    NeedMoreData,
    RecoverableError { error: Seq<char>, consumed_bytes: int, close_connection: bool },
    FatalError(Seq<char>),
}

impl View for ParseStatus {
    type V = ParseView;

    open spec fn view(&self) -> ParseView {
        match self {
            ParseStatus::Complete(r, n) => ParseView::Complete(r@, *n as int),
            ParseStatus::NeedMoreData => ParseView::NeedMoreData,
            ParseStatus::RecoverableError { error, consumed_bytes, close_connection } => {
                ParseView::RecoverableError {
                    error: error@,
                    consumed_bytes: *consumed_bytes as int,
                    close_connection: *close_connection,
                }
            },
            ParseStatus::FatalError(e) => ParseView::FatalError(e@),
        }
    }
}

/// The request line and headers of a request, and where its body starts.
pub struct HeadView {
    pub method: HttpMethod,
    pub uri: Seq<char>,
    pub version: HttpVersion,
    pub headers: HeadersView,
    pub body_start: int,
}

/// What the head section of a buffer amounts to.
pub enum HeadOutcome {
    /// No blank line ends a head section yet.
    Incomplete,
    /// The head section cannot be read; the message says why.
    Malformed(Seq<char>),
    /// A head section that was read.
    Head(HeadView),
}

/// The first blank line at or after position `i`: its start and the length
/// of the delimiter, four bytes for `\r\n\r\n` and two for `\n\n`.
pub open spec fn delimiter_from(buf: Seq<u8>, i: int) -> Option<(int, int)>
    decreases buf.len() - i,
{
    if i < 0 || i + 1 >= buf.len() {
        None
    } else if buf[i] == 13u8 && i + 3 < buf.len() && buf[i + 1] == 10u8 && buf[i + 2] == 13u8
        && buf[i + 3] == 10u8 {
        Some((i, 4))
    } else if buf[i] == 10u8 && buf[i + 1] == 10u8 {
        Some((i, 2))
    } else {
        delimiter_from(buf, i + 1)
    }
}

/// Where the head section of `buf` ends: the first `\r\n\r\n` or `\n\n`.
pub open spec fn header_delimiter(buf: Seq<u8>) -> Option<(int, int)> {
    delimiter_from(buf, 0)
}

/// The headers after the header lines `lines` were read into `h`. A line is
/// trimmed; an empty line, or one without `:`, is skipped, and otherwise the
/// text before its first `:` is the name and the rest the value.
pub open spec fn header_lines(h: HeadersView, lines: Seq<Seq<char>>) -> HeadersView
    decreases lines.len(),
{
    if lines.len() == 0 {
        h
    } else {
        header_lines(with_header_line(h, lines[0]), lines.drop_first())
    }
}

/// The headers after one header line was read into `h`.
pub open spec fn with_header_line(h: HeadersView, line: Seq<char>) -> HeadersView {
    let t = trim(line);
    match first_index_of(t, ':') {
        Some(i) => if t.len() > 0 {
            h.inserted(t.take(i), t.skip(i + 1))
        } else {
            h
        },
        None => h,
    }
}

/// Reads a head section `text` whose body starts at `body_start`. The
/// first line, trimmed, is the request line: method, target and, if
/// present, version (HTTP/1.1 when absent), separated by white space. The
/// following lines are header lines.
pub open spec fn request_head(text: Seq<char>, body_start: int) -> HeadOutcome {
    let lines = split_on(text, '\n');
    let line = trim(lines[0]);
    let w = words(line);
    if line.len() == 0 {
        HeadOutcome::Malformed("Empty request line"@)
    } else if w.len() < 2 {
        HeadOutcome::Malformed("Malformed request line"@)
    } else {
        HeadOutcome::Head(
            HeadView {
                method: HttpMethod::from_token(w[0]),
                uri: w[1],
                version: if w.len() >= 3 {
                    HttpVersion::from_token(w[2])
                } else {
                    HttpVersion::Http11
                },
                headers: header_lines(HeadersView::empty(), lines.drop_first()),
                body_start,
            },
        )
    }
}

/// The head section of `buf`: everything before the first blank line,
/// which must be valid UTF-8.
pub open spec fn head_outcome(buf: Seq<u8>) -> HeadOutcome {
    match header_delimiter(buf) {
        None => HeadOutcome::Incomplete,
        Some((end, delim)) => if !valid_utf8(buf.take(end)) {
            HeadOutcome::Malformed("Invalid UTF-8 encoding in headers"@)
        } else {
            request_head(decode_utf8(buf.take(end)), end + delim)
        },
    }
}

/// The body length that headers declare: their Content-Length, or zero.
pub open spec fn declared_length(h: HeadersView) -> int {
    match h.content_length {
        Some(n) => n as int,
        None => 0,
    }
}

/// The end of the request that a head section announces fits in `usize`.
pub open spec fn frame_fits(buf: Seq<u8>) -> bool {
    match head_outcome(buf) {
        HeadOutcome::Head(h) => h.body_start + declared_length(h.headers) <= usize::MAX,
        _ => true,
    }
}

/// What parsing `buf` gives: a request occupies its head section, the
/// blank line and as many body bytes as its Content-Length declares. An
/// HTTP/1.1 request needs a non-empty Host header; without one its bytes
/// are still consumed.
pub open spec fn parse_buffer(buf: Seq<u8>) -> ParseView {
    match head_outcome(buf) {
        HeadOutcome::Incomplete => ParseView::NeedMoreData,
        HeadOutcome::Malformed(m) => ParseView::FatalError(m),
        HeadOutcome::Head(h) => {
            let total = h.body_start + declared_length(h.headers);
            if buf.len() < total {
                ParseView::NeedMoreData
            } else if h.version == HttpVersion::Http11 && !h.headers.has_valid_host() {
                ParseView::RecoverableError {
                    error: "HTTP/1.1 request missing Host header"@,
                    consumed_bytes: total,
                    close_connection: h.headers.connection_close,
                }
            } else {
                ParseView::Complete(
                    RequestView {
                        method: h.method,
                        uri: h.uri,
                        version: h.version,
                        headers: h.headers,
                        body: buf.subrange(h.body_start, total),
                    },
                    total,
                )
            }
        },
    }
}

/// Where a blank line found from `i` lies, and what it is made of.
proof fn lemma_delimiter_facts(buf: Seq<u8>, i: int)
    requires
        0 <= i,
    ensures
        match delimiter_from(buf, i) {
            Some((e, d)) => i <= e && e + d <= buf.len() && ((d == 4 && buf[e] == 13u8 && buf[e
                + 1] == 10u8 && buf[e + 2] == 13u8 && buf[e + 3] == 10u8) || (d == 2 && buf[e]
                == 10u8 && buf[e + 1] == 10u8)),
            None => true,
        },
    decreases buf.len() - i,
{
    if i + 1 < buf.len() {
        lemma_delimiter_facts(buf, i + 1);
    }
}

/// The search for a blank line only reads the bytes up to the end of the
/// blank line it finds.
proof fn lemma_delimiter_agrees(b1: Seq<u8>, b2: Seq<u8>, i: int, m: int)
    requires
        0 <= i,
        m <= b1.len(),
        m <= b2.len(),
        forall|j: int| 0 <= j < m ==> b1[j] == b2[j],
        delimiter_from(b1, i) matches Some((e, d)) && e + d <= m,
    ensures
        delimiter_from(b2, i) == delimiter_from(b1, i),
    decreases b1.len() - i,
{
    lemma_delimiter_facts(b1, i);
    let (e, d) = delimiter_from(b1, i).unwrap();
    if i < e {
        lemma_delimiter_facts(b1, i + 1);
        assert(b1[i] == b2[i] && b1[i + 1] == b2[i + 1]);
        if i + 3 < m {
            assert(b1[i + 2] == b2[i + 2] && b1[i + 3] == b2[i + 3]);
        } else {
            assert(b1[i + 2] == b2[i + 2]);
        }
        lemma_delimiter_agrees(b1, b2, i + 1, m);
    } else {
        assert(b1[e] == b2[e] && b1[e + 1] == b2[e + 1]);
        if d == 4 {
            assert(b1[e + 2] == b2[e + 2] && b1[e + 3] == b2[e + 3]);
        }
    }
}

/// The number of bytes a parse outcome consumes, when it consumes any.
pub open spec fn consumed(v: ParseView) -> Option<int> {
    match v {
        ParseView::Complete(_, n) => Some(n),
        ParseView::RecoverableError { consumed_bytes, .. } => Some(consumed_bytes),
        _ => None,
    }
}

/// A request is read from the bytes it consumes and from nothing else:
/// whatever follows them (the next pipelined request, or more bytes still
/// to come) changes neither the request nor how much of the buffer it takes.
pub proof fn lemma_parse_reads_only_its_frame(buf: Seq<u8>, extra: Seq<u8>)
    ensures
        consumed(parse_buffer(buf)) matches Some(n) ==> {
            &&& n <= buf.len()
            &&& parse_buffer(buf.take(n) + extra) == parse_buffer(buf)
            &&& frame_fits(buf.take(n) + extra) == frame_fits(buf)
        },
{
    if let Some(n) = consumed(parse_buffer(buf)) {
        let b2 = buf.take(n) + extra;
        let (e, d) = header_delimiter(buf).unwrap();
        lemma_delimiter_facts(buf, 0);
        assert forall|j: int| 0 <= j < n implies buf[j] == b2[j] by {}
        lemma_delimiter_agrees(buf, b2, 0, n);
        assert(b2.take(e) == buf.take(e));
        assert(head_outcome(b2) == head_outcome(buf));
        assert(b2.subrange(e + d, n) == buf.subrange(e + d, n));
    }
}

/// Once the buffer holds a whole answer (anything but "need more data"),
/// more bytes arriving after it change neither that answer nor whether its
/// frame fits.
pub proof fn lemma_parse_ignores_appended_bytes(buf: Seq<u8>, extra: Seq<u8>)
    requires
        parse_buffer(buf) != ParseView::NeedMoreData,
    ensures
        parse_buffer(buf + extra) == parse_buffer(buf),
        frame_fits(buf + extra) == frame_fits(buf),
{
    let b2 = buf + extra;
    let (e, d) = header_delimiter(buf).unwrap();
    lemma_delimiter_facts(buf, 0);
    assert forall|j: int| 0 <= j < buf.len() implies buf[j] == b2[j] by {}
    lemma_delimiter_agrees(buf, b2, 0, buf.len() as int);
    assert(b2.take(e) == buf.take(e));
    assert(head_outcome(b2) == head_outcome(buf));
    if let HeadOutcome::Head(h) = head_outcome(buf) {
        let total = h.body_start + declared_length(h.headers);
        if total <= buf.len() {
            assert(b2.subrange(h.body_start, total) == buf.subrange(h.body_start, total));
        }
    }
}

/// No blank line is found in a prefix that ends before the first blank
/// line of the whole buffer is complete.
proof fn lemma_no_delimiter_in_prefix(b: Seq<u8>, k: int, i: int)
    requires
        0 <= i,
        0 <= k <= b.len(),
        delimiter_from(b, i) matches Some((e, d)) && i <= e && k < e + d,
    ensures
        delimiter_from(b.take(k), i) is None,
    decreases b.len() - i,
{
    lemma_delimiter_facts(b, i);
    let p = b.take(k);
    let (e, d) = delimiter_from(b, i).unwrap();
    if i + 1 < k {
        assert(p[i] == b[i] && p[i + 1] == b[i + 1]);
        if i + 2 < k {
            assert(p[i + 2] == b[i + 2]);
        }
        if i + 3 < k {
            assert(p[i + 3] == b[i + 3]);
        }
        if i < e {
            lemma_delimiter_facts(b, i + 1);
            lemma_no_delimiter_in_prefix(b, k, i + 1);
        } else {
            // i == e: the blank line is cut short, and nothing after its
            // start completes one either.
            if i + 2 < k {
                assert(p[i + 2] == b[i + 2]);
            }
            assert(delimiter_from(p, i + 2) is None);
        }
    }
}

/// A strict prefix of the bytes a request or a recoverable error consumes
/// is answered with "need more data", however the bytes are cut: a
/// partial request waits and never fails.
pub proof fn lemma_prefix_needs_more_data(buf: Seq<u8>, k: int)
    requires
        consumed(parse_buffer(buf)) matches Some(n) && 0 <= k < n,
    ensures
        parse_buffer(buf.take(k)) == ParseView::NeedMoreData,
        frame_fits(buf) ==> frame_fits(buf.take(k)),
{
    let (e, d) = header_delimiter(buf).unwrap();
    lemma_delimiter_facts(buf, 0);
    let p = buf.take(k);
    if k >= e + d {
        assert forall|j: int| 0 <= j < e + d implies buf[j] == p[j] by {}
        lemma_delimiter_agrees(buf, p, 0, e + d);
        assert(p.take(e) == buf.take(e));
        assert(head_outcome(p) == head_outcome(buf));
    } else {
        lemma_no_delimiter_in_prefix(buf, k, 0);
    }
}

/// A parse that consumes bytes consumes at least the two bytes of a blank
/// line.
pub proof fn lemma_consumed_positive(buf: Seq<u8>)
    ensures
        consumed(parse_buffer(buf)) matches Some(n) ==> 2 <= n <= buf.len(),
{
    lemma_delimiter_facts(buf, 0);
}

/// The bytes a request or a recoverable error consumes are its head, the
/// blank line after it and the whole body its Content-Length declares: a
/// request that cannot be served is skipped together with its body, and
/// only once the body has fully arrived.
pub proof fn lemma_consumed_is_head_and_declared_body(buf: Seq<u8>)
    ensures
        consumed(parse_buffer(buf)) matches Some(n) ==> {
            &&& header_delimiter(buf) matches Some((end, delim))
            &&& head_outcome(buf) matches HeadOutcome::Head(h)
            &&& n == end + delim + declared_length(h.headers)
            &&& n <= buf.len()
        },
{
}

/// A request that is served carries a non-empty Host header when it speaks
/// HTTP/1.1, and its body is exactly the bytes that its Content-Length
/// declares, the last ones it consumes.
pub proof fn lemma_complete_request_shape(buf: Seq<u8>)
    ensures
        parse_buffer(buf) matches ParseView::Complete(r, n) ==> {
            &&& r.version == HttpVersion::Http11 ==> r.headers.has_valid_host()
            &&& r.body.len() == declared_length(r.headers)
            &&& n <= buf.len()
            &&& buf.subrange(n - r.body.len(), n) == r.body
        },
{
    if let HeadOutcome::Head(h) = head_outcome(buf) {
        let (e, d) = header_delimiter(buf).unwrap();
        lemma_delimiter_facts(buf, 0);
    }
}

/// `std::str::from_utf8`: the bytes as a string slice when they are valid
/// UTF-8; the slice holds exactly those bytes.
#[verifier::external_body]
fn str_from_utf8(bytes: &[u8]) -> (r: Option<&str>)
    ensures
        r is Some == valid_utf8(bytes@),
        r matches Some(s) ==> encode_utf8(s@) == bytes@,
{
    std::str::from_utf8(bytes).ok()
}

/// A head section that was read.
struct Head {
    method: HttpMethod,
    uri: String,
    version: HttpVersion,
    headers: HttpHeaders,
    body_start: usize,
    content_length: usize,
}

pub struct HttpParser;

impl HttpParser {
    fn find_header_delimiter(buf: &[u8]) -> (r: Option<(usize, usize)>)
        ensures
            match r {
                Some((end, delim)) => header_delimiter(buf@) == Some((end as int, delim as int))
                    && end + delim <= buf@.len(),
                None => header_delimiter(buf@) is None,
            },
    {
        let len = buf.len();
        if len < 2 {
            return None;
        }
        let mut i: usize = 0;
        while i < len - 1
            invariant
                len == buf@.len(),
                len >= 2,
                0 <= i <= len - 1,
                header_delimiter(buf@) == delimiter_from(buf@, i as int),
            decreases len - i,
        {
            if buf[i] == 13u8 && len - i > 3 && buf[i + 1] == 10u8 && buf[i + 2] == 13u8 && buf[i
                + 3] == 10u8 {
                return Some((i, 4));
            }
            if buf[i] == 10u8 && buf[i + 1] == 10u8 {
                return Some((i, 2));
            }
            i = i + 1;
        }
        None
    }

    /// Reads the head section of `buf`; `Err` holds the status to answer
    /// when there is none to read.
    fn parse_head(buf: &[u8]) -> (r: Result<Head, ParseStatus>)
        ensures
            match r {
                Ok(h) => head_outcome(buf@) == HeadOutcome::Head(
                    HeadView {
                        method: h.method,
                        uri: h.uri@,
                        version: h.version,
                        headers: h.headers@,
                        body_start: h.body_start as int,
                    },
                ) && h.content_length == declared_length(h.headers@) && h.body_start <= buf@.len(),
                Err(st) => st@ == parse_buffer(buf@) && (head_outcome(buf@) is Incomplete
                    || head_outcome(buf@) is Malformed),
            },
    {
        let found = Self::find_header_delimiter(buf);
        let (header_end, delim_len) = match found {
            Some(res) => res,
            None => {
                return Err(ParseStatus::NeedMoreData);
            },
        };
        let buf_len = buf.len();
        assert(header_end + delim_len <= buf_len);
        let body_start = header_end + delim_len;
        let head_bytes = &buf[0..header_end];
        assert(head_bytes@ == buf@.take(header_end as int));
        let header_str = match str_from_utf8(head_bytes) {
            Some(s) => s,
            None => {
                return Err(
                    ParseStatus::FatalError(String::from_str("Invalid UTF-8 encoding in headers")),
                );
            },
        };
        proof {
            encode_utf8_decode_utf8(header_str@);
        }
        let text = chars_of(header_str);
        let n = text.len();
        let ghost lines = split_on(text@, '\n');
        assert(text@.subrange(0, n as int) == text@);

        // The request line.
        let line_end = match find_char(&text, 0, n, '\n') {
            Some(k) => k,
            None => n,
        };
        proof {
            if line_end < n {
                assert(text@.take(line_end as int) == text@.subrange(0, line_end as int));
                assert(text@.skip(line_end + 1) == text@.subrange(line_end + 1, n as int));
                assert(lines == seq![text@.subrange(0, line_end as int)] + split_on(
                    text@.subrange(line_end + 1, n as int),
                    '\n',
                ));
            } else {
                assert(lines == seq![text@]);
            }
            assert(lines[0] == text@.subrange(0, line_end as int));
        }
        let (la, lb) = trim_bounds(&text, 0, line_end);
        if la == lb {
            return Err(ParseStatus::FatalError(String::from_str("Empty request line")));
        }
        let (m_a, m_b) = next_word(&text, la, lb);
        let (u_a, u_b) = next_word(&text, m_b, lb);
        if m_a == lb || u_a == lb {
            return Err(ParseStatus::FatalError(String::from_str("Malformed request line")));
        }
        let (v_a, v_b) = next_word(&text, u_b, lb);
        let version = if v_a < lb {
            HttpVersion::from_range(&text, v_a, v_b)
        } else {
            HttpVersion::Http11
        };
        let method = HttpMethod::from_range(&text, m_a, m_b);
        let uri = string_from_chars(&text, u_a, u_b);
        let ghost w = words(text@.subrange(la as int, lb as int));
        proof {
            assert(w[0] == text@.subrange(m_a as int, m_b as int));
            assert(w[1] == text@.subrange(u_a as int, u_b as int));
            if v_a < lb {
                assert(w.len() >= 3);
                assert(w[2] == text@.subrange(v_a as int, v_b as int));
            } else {
                assert(w.len() == 2);
            }
        }

        // The header lines.
        let mut headers = HttpHeaders::new();
        let ghost target = header_lines(HeadersView::empty(), lines.drop_first());
        if line_end < n {
            let mut pos = line_end + 1;
            assert(lines.drop_first() == split_on(text@.subrange(pos as int, n as int), '\n'));
            loop
                invariant_except_break
                    target == header_lines(
                        headers@,
                        split_on(text@.subrange(pos as int, n as int), '\n'),
                    ),
                invariant
                    line_end < pos <= n,
                    n == text@.len(),
                ensures
                    target == headers@,
                decreases n - pos,
            {
                let ghost rest = text@.subrange(pos as int, n as int);
                let ghost pieces = split_on(rest, '\n');
                let end = match find_char(&text, pos, n, '\n') {
                    Some(k) => k,
                    None => n,
                };
                let ghost piece = text@.subrange(pos as int, end as int);
                proof {
                    if end < n {
                        assert(rest.take(end - pos) == piece);
                        assert(rest.skip(end - pos + 1) == text@.subrange(end + 1, n as int));
                        assert(pieces == seq![piece] + split_on(
                            text@.subrange(end + 1, n as int),
                            '\n',
                        ));
                        assert(pieces.drop_first() == split_on(
                            text@.subrange(end + 1, n as int),
                            '\n',
                        ));
                    } else {
                        assert(rest == piece);
                        assert(pieces == seq![piece]);
                        assert(pieces.drop_first() =~= Seq::<Seq<char>>::empty());
                    }
                    assert(pieces[0] == piece);
                }
                let ghost before = headers@;
                let (ta, tb) = trim_bounds(&text, pos, end);
                if ta < tb {
                    match find_char(&text, ta, tb, ':') {
                        Some(colon) => {
                            let ghost t = text@.subrange(ta as int, tb as int);
                            assert(t.take(colon - ta) == text@.subrange(ta as int, colon as int));
                            assert(t.skip(colon - ta + 1) == text@.subrange(colon + 1, tb as int));
                            headers.insert_range(&text, ta, colon, &text, colon + 1, tb);
                        },
                        None => {},
                    }
                }
                assert(headers@ == with_header_line(before, piece));
                assert(header_lines(before, pieces) == header_lines(headers@, pieces.drop_first()));
                if end == n {
                    break ;
                }
                pos = end + 1;
            }
        } else {
            assert(lines.drop_first() =~= Seq::<Seq<char>>::empty());
        }
        assert(headers@ == target);

        let content_length = match headers.content_length() {
            Some(cl) => cl,
            None => 0,
        };
        Ok(Head { method, uri, version, headers, body_start, content_length })
    }

    /// Whether the request at the front of `buf` ends at a position that
    /// fits in `usize`; it always does unless a Content-Length is within
    /// the head's size of `usize::MAX`.
    pub fn frame_fits(buf: &[u8]) -> (b: bool)
        ensures
            b == frame_fits(buf@),
    {
        match Self::parse_head(buf) {
            Ok(head) => head.content_length <= usize::MAX - head.body_start,
            Err(_) => true,
        }
    }

    /// Attempts to parse an HTTP request from the buffer.
    /// Handles framing, Content-Length boundaries, and RFC 7230 Host verification.
    pub fn parse(buf: &[u8]) -> (r: ParseStatus)
        requires
            frame_fits(buf@),
        ensures
            r@ == parse_buffer(buf@),
    {
        let head = match Self::parse_head(buf) {
            Ok(head) => head,
            Err(status) => {
                return status;
            },
        };
        let body_start = head.body_start;
        let content_length = head.content_length;
        let total_consumed = body_start + content_length;
        if buf.len() < total_consumed {
            return ParseStatus::NeedMoreData;
        }
        let close_connection = head.headers.is_connection_close();
        if head.version == HttpVersion::Http11 && !head.headers.has_valid_host() {
            return ParseStatus::RecoverableError {
                error: String::from_str("HTTP/1.1 request missing Host header"),
                consumed_bytes: total_consumed,
                close_connection,
            };
        }
        let mut body: Vec<u8> = Vec::new();
        let mut i = body_start;
        while i < total_consumed
            invariant
                body_start <= i <= total_consumed <= buf@.len(),
                body@ == buf@.subrange(body_start as int, i as int),
            decreases total_consumed - i,
        {
            body.push(buf[i]);
            assert(buf@.subrange(body_start as int, i + 1) == buf@.subrange(
                body_start as int,
                i as int,
            ).push(buf@[i as int]));
            i = i + 1;
        }
        let request = HttpRequest::new(head.method, head.uri, head.version, head.headers, body);
        ParseStatus::Complete(request, total_consumed)
    }
}

} // verus!
