use vstd::prelude::*;

use crate::http::parser::{
    consumed, frame_fits, header_delimiter, lemma_consumed_positive, lemma_parse_reads_only_its_frame,
    lemma_prefix_needs_more_data, parse_buffer, HttpParser, ParseStatus, ParseView,
};
use crate::http::request::{HttpRequest, RequestView};
use crate::http::response::{bad_request_response, HttpResponse, ResponseView};

verus! {

/// The bytes a connection has received and not yet consumed.
pub struct ConnectionState {
    buffer: Vec<u8>,
}

/// What a connection does next.
pub enum ConnectionAction {
    /// Serve `request`; close the connection afterwards when `close_after`
    /// (or when the response asks for it).
    Dispatch { request: HttpRequest, close_after: bool },
    /// Send `response`; close the connection afterwards when `close_after`.
    Reply { response: HttpResponse, close_after: bool },
    /// Wait for more bytes from the peer.
    ReadMore,
    /// Drop the connection without an answer: the request at the front
    /// announces a body that ends beyond what can be addressed.
    Abort,
}

/// What a connection action holds.
pub enum ActionView {
    Dispatch(RequestView, bool),
    Reply(ResponseView, bool),
    ReadMore,
    Abort,
}

impl View for ConnectionAction {
    type V = ActionView;

    open spec fn view(&self) -> ActionView {
        match self {
            ConnectionAction::Dispatch { request, close_after } => ActionView::Dispatch(
                request@,
                *close_after,
            ),
            ConnectionAction::Reply { response, close_after } => ActionView::Reply(
                response@,
                *close_after,
            ),
            ConnectionAction::ReadMore => ActionView::ReadMore,
            ConnectionAction::Abort => ActionView::Abort,
        }
    }
}

/// The next action for the bytes `buf` and the bytes left afterwards.
/// Requests are taken from the front in arrival order: a request or a
/// recoverable error consumes its bytes, and the rest stays for the next
/// step; a fatal error is answered with `400` and closes the connection.
pub open spec fn next_step(buf: Seq<u8>) -> (ActionView, Seq<u8>) {
    if !frame_fits(buf) {
        (ActionView::Abort, buf)
    } else {
        match parse_buffer(buf) {
            ParseView::Complete(r, n) => (ActionView::Dispatch(r, r.should_close()), buf.skip(n)),
            ParseView::RecoverableError { error, consumed_bytes, close_connection } => (
                ActionView::Reply(bad_request_response(error, close_connection), close_connection),
                buf.skip(consumed_bytes),
            ),
            ParseView::FatalError(e) => (ActionView::Reply(bad_request_response(e, true), true), buf),
            ParseView::NeedMoreData => (ActionView::ReadMore, buf),
        }
    }
}

/// Removes the first `n` bytes of `v`.
fn drain_front(v: &mut Vec<u8>, n: usize)
    requires
        n <= old(v)@.len(),
    ensures
        final(v)@ == old(v)@.skip(n as int),
{
    let mut rest: Vec<u8> = Vec::new();
    let mut i = n;
    while i < v.len()
        invariant
            n <= i <= v@.len(),
            v@ == old(v)@,
            rest@ == v@.subrange(n as int, i as int),
        decreases v@.len() - i,
    {
        rest.push(v[i]);
        assert(v@.subrange(n as int, i + 1) == v@.subrange(n as int, i as int).push(v@[i as int]));
        i = i + 1;
    }
    *v = rest;
}

impl ConnectionState {
    /// The bytes received and not consumed yet.
    pub closed spec fn pending(&self) -> Seq<u8> {
        self.buffer@
    }

    pub fn new() -> (c: Self)
        ensures
            c.pending() == Seq::<u8>::empty(),
    {
        Self { buffer: Vec::with_capacity(4096) }
    }

    /// Appends bytes read from the peer.
    pub fn receive(&mut self, data: &[u8])
        ensures
            final(self).pending() == old(self).pending() + data@,
    {
        let mut i: usize = 0;
        while i < data.len()
            invariant
                0 <= i <= data@.len(),
                self.buffer@ == old(self).buffer@ + data@.take(i as int),
            decreases data@.len() - i,
        {
            self.buffer.push(data[i]);
            assert(data@.take(i + 1) == data@.take(i as int).push(data@[i as int]));
            i = i + 1;
        }
        assert(data@.take(data@.len() as int) == data@);
    }

    /// Takes the next request, or the answer to the next unusable one, from
    /// the front of the received bytes.
    pub fn next_action(&mut self) -> (a: ConnectionAction)
        ensures
            (a@, final(self).pending()) == next_step(old(self).pending()),
    {
        if !HttpParser::frame_fits(self.buffer.as_slice()) {
            return ConnectionAction::Abort;
        }
        match HttpParser::parse(self.buffer.as_slice()) {
            ParseStatus::Complete(request, consumed) => {
                drain_front(&mut self.buffer, consumed);
                let close_after = request.should_close();
                ConnectionAction::Dispatch { request, close_after }
            },
            ParseStatus::RecoverableError { error, consumed_bytes, close_connection } => {
                drain_front(&mut self.buffer, consumed_bytes);
                let response = HttpResponse::bad_request(error.as_str(), close_connection);
                ConnectionAction::Reply { response, close_after: close_connection }
            },
            ParseStatus::FatalError(err) => {
                let response = HttpResponse::bad_request(err.as_str(), true);
                ConnectionAction::Reply { response, close_after: true }
            },
            ParseStatus::NeedMoreData => ConnectionAction::ReadMore,
        }
    }
}

/// Pipelined requests are served in order: when the bytes `a` are exactly
/// one request, the bytes `a + b` yield that request first and leave `b`.
pub proof fn lemma_pipelined_requests_in_order(a: Seq<u8>, b: Seq<u8>, r: RequestView)
    requires
        frame_fits(a),
        parse_buffer(a) == ParseView::Complete(r, a.len() as int),
    ensures
        next_step(a + b) == (ActionView::Dispatch(r, r.should_close()), b),
{
    lemma_parse_reads_only_its_frame(a, b);
    assert(a.take(a.len() as int) == a);
    assert((a + b).skip(a.len() as int) == b);
}

/// When the bytes `a` are exactly one request, or one unusable request
/// whose bytes can be skipped, the bytes `a + b` are answered as `a` alone is
/// and leave exactly `b`: the bad request is skipped by its own bytes, and
/// the next one is taken from `b`.
pub proof fn lemma_front_frame_then_rest(a: Seq<u8>, b: Seq<u8>)
    requires
        frame_fits(a),
        consumed(parse_buffer(a)) == Some(a.len() as int),
    ensures
        next_step(a + b) == (next_step(a).0, b),
        next_step(a).1 == Seq::<u8>::empty(),
{
    lemma_parse_reads_only_its_frame(a, b);
    assert(a.take(a.len() as int) == a);
    assert((a + b).skip(a.len() as int) == b);
    assert(a.skip(a.len() as int) =~= Seq::<u8>::empty());
}

/// Whether the connection ends once `a` is carried out.
pub open spec fn ends_connection(a: ActionView) -> bool {
    match a {
        ActionView::Dispatch(_, close) => close,
        ActionView::Reply(_, close) => close,
        ActionView::Abort => true,
        ActionView::ReadMore => false,
    }
}

/// The actions taken from the bytes `buf` before the connection must read
/// more (at most `fuel` of them), and the bytes left for later. Taking
/// actions stops at "read more" and after an action that ends the
/// connection.
pub open spec fn drain(buf: Seq<u8>, fuel: nat) -> (Seq<ActionView>, Seq<u8>)
    decreases fuel,
{
    if fuel == 0 {
        (Seq::empty(), buf)
    } else {
        let (a, rest) = next_step(buf);
        if a is ReadMore {
            (Seq::empty(), buf)
        } else if ends_connection(a) {
            (seq![a], rest)
        } else {
            let (more, left) = drain(rest, (fuel - 1) as nat);
            (seq![a] + more, left)
        }
    }
}

/// The actions of a connection that receives the bytes `chunks` one chunk
/// after another, starting with the bytes `pending`: after each chunk it
/// takes every action it can, and it stops for good once one ends the
/// connection.
pub open spec fn serve_chunks(pending: Seq<u8>, chunks: Seq<Seq<u8>>, fuel: nat) -> Seq<ActionView>
    decreases chunks.len(),
{
    if chunks.len() == 0 {
        Seq::empty()
    } else {
        let (acts, left) = drain(pending + chunks[0], fuel);
        if acts.len() > 0 && ends_connection(acts.last()) {
            acts
        } else {
            acts + serve_chunks(left, chunks.drop_first(), fuel)
        }
    }
}

/// The bytes `reqs` are each exactly one request, the one in `views`, that
/// keeps the connection open.
pub open spec fn open_requests(reqs: Seq<Seq<u8>>, views: Seq<RequestView>) -> bool {
    &&& reqs.len() == views.len()
    &&& forall|i: int|
        0 <= i < reqs.len() ==> {
            &&& frame_fits(#[trigger] reqs[i])
            &&& parse_buffer(reqs[i]) == ParseView::Complete(views[i], reqs[i].len() as int)
            &&& !views[i].should_close()
        }
}

/// The serving of each request in turn.
pub open spec fn dispatches(views: Seq<RequestView>) -> Seq<ActionView> {
    views.map_values(|v: RequestView| ActionView::Dispatch(v, v.should_close()))
}

/// How many of the requests `reqs` lie whole within their first `t` bytes.
pub open spec fn whole_count(reqs: Seq<Seq<u8>>, t: int) -> nat
    decreases reqs.len(),
{
    if reqs.len() == 0 || t < reqs[0].len() {
        0
    } else {
        1 + whole_count(reqs.drop_first(), t - reqs[0].len())
    }
}

/// How many bytes the requests that lie whole within the first `t` bytes
/// take.
pub open spec fn whole_len(reqs: Seq<Seq<u8>>, t: int) -> int
    decreases reqs.len(),
{
    if reqs.len() == 0 || t < reqs[0].len() {
        0
    } else {
        reqs[0].len() + whole_len(reqs.drop_first(), t - reqs[0].len())
    }
}

/// Where the first `t` bytes of the requests stop: after `whole_count`
/// whole requests and within the next one.
proof fn lemma_whole(reqs: Seq<Seq<u8>>, t: int)
    requires
        0 <= t <= reqs.flatten().len(),
    ensures
        0 <= whole_len(reqs, t) <= t,
        whole_count(reqs, t) <= reqs.len(),
        t - whole_len(reqs, t) <= reqs.skip(whole_count(reqs, t) as int).flatten().len(),
        whole_count(reqs.skip(whole_count(reqs, t) as int), t - whole_len(reqs, t)) == 0,
        reqs.flatten().take(t).skip(whole_len(reqs, t)) == reqs.skip(
            whole_count(reqs, t) as int,
        ).flatten().take(t - whole_len(reqs, t)),
        reqs.flatten().skip(t) == reqs.skip(whole_count(reqs, t) as int).flatten().skip(
            t - whole_len(reqs, t),
        ),
    decreases reqs.len(),
{
    if reqs.len() == 0 || t < reqs[0].len() {
        assert(reqs.skip(0) == reqs);
        assert(reqs.flatten().take(t).skip(0) == reqs.flatten().take(t));
    } else {
        let r = reqs.drop_first();
        let t2 = t - reqs[0].len();
        assert(reqs.flatten() == reqs[0] + r.flatten());
        lemma_whole(r, t2);
        let w = whole_count(r, t2) as int;
        assert(reqs.skip(w + 1) == r.skip(w));
        assert(reqs.flatten().take(t).skip(reqs[0].len() as int) == r.flatten().take(t2));
        assert(reqs.flatten().take(t).skip(reqs[0].len() + whole_len(r, t2)) == r.flatten().take(
            t2,
        ).skip(whole_len(r, t2)));
        assert(reqs.flatten().skip(t) == r.flatten().skip(t2));
    }
}

/// Taking actions from the first `t` bytes of open requests serves the
/// requests that lie whole within them, in order, and leaves the bytes of
/// the next one.
proof fn lemma_drain_requests(reqs: Seq<Seq<u8>>, views: Seq<RequestView>, t: int, fuel: nat)
    requires
        open_requests(reqs, views),
        0 <= t <= reqs.flatten().len(),
        fuel > reqs.len(),
    ensures
        drain(reqs.flatten().take(t), fuel) == (
            dispatches(views.take(whole_count(reqs, t) as int)),
            reqs.flatten().take(t).skip(whole_len(reqs, t)),
        ),
    decreases reqs.len(),
{
    let buf = reqs.flatten().take(t);
    if reqs.len() == 0 {
        assert(buf =~= Seq::<u8>::empty());
        assert(header_delimiter(buf) is None);
        assert(dispatches(views.take(0)) =~= Seq::<ActionView>::empty());
        assert(buf.skip(0) == buf);
    } else if t < reqs[0].len() {
        assert(reqs.flatten() == reqs[0] + reqs.drop_first().flatten());
        assert(buf == reqs[0].take(t));
        assert(frame_fits(reqs[0]));
        lemma_prefix_needs_more_data(reqs[0], t);
        assert(dispatches(views.take(0)) =~= Seq::<ActionView>::empty());
        assert(buf.skip(0) == buf);
    } else {
        let r = reqs.drop_first();
        let vs = views.drop_first();
        let t2 = t - reqs[0].len();
        assert(reqs.flatten() == reqs[0] + r.flatten());
        let tail = r.flatten().take(t2);
        assert(buf == reqs[0] + tail);
        assert(frame_fits(reqs[0]));
        lemma_pipelined_requests_in_order(reqs[0], tail, views[0]);
        assert(open_requests(r, vs)) by {
            assert forall|i: int| 0 <= i < r.len() implies {
                &&& frame_fits(#[trigger] r[i])
                &&& parse_buffer(r[i]) == ParseView::Complete(vs[i], r[i].len() as int)
                &&& !vs[i].should_close()
            } by {
                assert(r[i] == reqs[i + 1]);
                assert(vs[i] == views[i + 1]);
            }
        }
        lemma_drain_requests(r, vs, t2, (fuel - 1) as nat);
        lemma_whole(r, t2);
        let w = whole_count(r, t2) as int;
        assert(!views[0].should_close());
        assert(dispatches(views.take(w + 1)) =~= seq![
            ActionView::Dispatch(views[0], views[0].should_close()),
        ] + dispatches(vs.take(w)));
        assert(buf.skip(reqs[0].len() as int) == tail);
        assert(buf.skip(reqs[0].len() + whole_len(r, t2)) == tail.skip(whole_len(r, t2)));
    }
}

/// However the bytes of pipelined requests that keep the connection open
/// are cut into chunks, the connection serves each request exactly once,
/// in the order they were sent.
pub proof fn lemma_chunked_requests_served_in_order(
    reqs: Seq<Seq<u8>>,
    views: Seq<RequestView>,
    chunks: Seq<Seq<u8>>,
    fuel: nat,
)
    requires
        open_requests(reqs, views),
        chunks.flatten() == reqs.flatten(),
        fuel > reqs.len(),
    ensures
        serve_chunks(Seq::empty(), chunks, fuel) == dispatches(views),
{
    if reqs.len() > 0 {
        assert(frame_fits(reqs[0]));
        lemma_consumed_positive(reqs[0]);
    }
    assert(reqs.flatten().take(0) =~= Seq::<u8>::empty());
    assert(reqs.flatten().skip(0) == reqs.flatten());
    lemma_serve_chunks(reqs, views, 0, chunks, fuel);
}

/// The requests after the first `w` are open requests as well.
proof fn lemma_open_requests_skip(reqs: Seq<Seq<u8>>, views: Seq<RequestView>, w: int)
    requires
        open_requests(reqs, views),
        0 <= w <= reqs.len(),
    ensures
        open_requests(reqs.skip(w), views.skip(w)),
        dispatches(views) == dispatches(views.take(w)) + dispatches(views.skip(w)),
        w > 0 ==> !ends_connection(dispatches(views.take(w)).last()),
{
    let r2 = reqs.skip(w);
    let v2 = views.skip(w);
    assert forall|i: int| 0 <= i < r2.len() implies {
        &&& frame_fits(#[trigger] r2[i])
        &&& parse_buffer(r2[i]) == ParseView::Complete(v2[i], r2[i].len() as int)
        &&& !v2[i].should_close()
    } by {
        assert(r2[i] == reqs[i + w]);
        assert(v2[i] == views[i + w]);
    }
    assert(dispatches(views) =~= dispatches(views.take(w)) + dispatches(views.skip(w)));
    if w > 0 {
        assert(frame_fits(reqs[w - 1]));
        assert(dispatches(views.take(w)).last() == ActionView::Dispatch(
            views[w - 1],
            views[w - 1].should_close(),
        ));
    }
}

/// Receiving the first of the chunks that follow the first `t` bytes of the
/// stream leaves the first `t + chunks[0].len()` bytes, and the other chunks
/// follow those.
proof fn lemma_chunk_step(stream: Seq<u8>, t: int, chunks: Seq<Seq<u8>>)
    requires
        0 <= t <= stream.len(),
        chunks.len() > 0,
        chunks.flatten() == stream.skip(t),
    ensures
        t + chunks[0].len() <= stream.len(),
        stream.take(t) + chunks[0] == stream.take(t + chunks[0].len()),
        chunks.drop_first().flatten() == stream.skip(t + chunks[0].len()),
{
    let c0 = chunks[0];
    assert(chunks.flatten() == c0 + chunks.drop_first().flatten());
    assert(c0 == stream.skip(t).take(c0.len() as int));
    assert(stream.take(t) + c0 =~= stream.take(t + c0.len()));
    assert((c0 + chunks.drop_first().flatten()).skip(c0.len() as int) == chunks.drop_first().flatten());
    assert(stream.skip(t).skip(c0.len() as int) =~= stream.skip(t + c0.len()));
}

/// Serving the chunks that follow the first `t` bytes of open requests,
/// when those bytes hold no whole request, serves every request in order.
proof fn lemma_serve_chunks(
    reqs: Seq<Seq<u8>>,
    views: Seq<RequestView>,
    t: int,
    chunks: Seq<Seq<u8>>,
    fuel: nat,
)
    requires
        open_requests(reqs, views),
        0 <= t <= reqs.flatten().len(),
        whole_count(reqs, t) == 0,
        chunks.flatten() == reqs.flatten().skip(t),
        fuel > reqs.len(),
    ensures
        serve_chunks(reqs.flatten().take(t), chunks, fuel) == dispatches(views),
    decreases chunks.len(),
{
    if chunks.len() == 0 {
        assert(chunks.flatten() =~= Seq::<u8>::empty());
        if reqs.len() > 0 {
            assert(reqs.flatten() == reqs[0] + reqs.drop_first().flatten());
        }
        assert(dispatches(views) =~= Seq::<ActionView>::empty());
    } else {
        let t1 = t + chunks[0].len();
        lemma_chunk_step(reqs.flatten(), t, chunks);
        lemma_drain_requests(reqs, views, t1, fuel);
        lemma_whole(reqs, t1);
        let w = whole_count(reqs, t1) as int;
        let wl = whole_len(reqs, t1);
        lemma_open_requests_skip(reqs, views, w);
        lemma_serve_chunks(reqs.skip(w), views.skip(w), t1 - wl, chunks.drop_first(), fuel);
    }
}

/// A request that closes the connection is the last one served: what
/// follows its bytes is not answered.
pub proof fn lemma_closing_request_ends_serving(a: Seq<u8>, b: Seq<u8>, r: RequestView, fuel: nat)
    requires
        frame_fits(a),
        parse_buffer(a) == ParseView::Complete(r, a.len() as int),
        r.should_close(),
        fuel > 0,
    ensures
        drain(a + b, fuel) == (seq![ActionView::Dispatch(r, true)], b),
        serve_chunks(Seq::empty(), seq![a + b], fuel) == seq![ActionView::Dispatch(r, true)],
{
    lemma_pipelined_requests_in_order(a, b, r);
    assert(Seq::<u8>::empty() + (a + b) == a + b);
}

/// A request that is framed but unusable is answered with `400` and
/// skipped by exactly its own bytes; unless it closes the connection, the
/// request after it is served next.
pub proof fn lemma_recoverable_then_next(
    a: Seq<u8>,
    b: Seq<u8>,
    error: Seq<char>,
    close: bool,
    r: RequestView,
    fuel: nat,
)
    requires
        frame_fits(a),
        parse_buffer(a) == (ParseView::RecoverableError {
            error,
            consumed_bytes: a.len() as int,
            close_connection: close,
        }),
        frame_fits(b),
        parse_buffer(b) == ParseView::Complete(r, b.len() as int),
        !r.should_close(),
        fuel > 1,
    ensures
        drain(a + b, fuel).0 == (if close {
            seq![ActionView::Reply(bad_request_response(error, true), true)]
        } else {
            seq![
                ActionView::Reply(bad_request_response(error, false), false),
                ActionView::Dispatch(r, false),
            ]
        }),
{
    lemma_front_frame_then_rest(a, b);
    assert(a.skip(a.len() as int) =~= Seq::<u8>::empty());
    if !close {
        lemma_pipelined_requests_in_order(b, Seq::empty(), r);
        assert(b + Seq::<u8>::empty() == b);
        let e = Seq::<u8>::empty();
        assert(header_delimiter(e) is None);
        if fuel > 2 {
            assert(drain(e, (fuel - 2) as nat).0 =~= Seq::<ActionView>::empty());
        }
        assert(drain(b, (fuel - 1) as nat).0 =~= seq![ActionView::Dispatch(r, false)]);
    }
}

} // verus!
