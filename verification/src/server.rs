//! Server-side dispatch: one decoded request against one engine, and the
//! full payload-to-frame step a connection task performs.
//!
//! The connection's read loop lives outside the library; for every payload
//! it reads it calls [`handle_frame`] (or [`KvsServer::serve_frame`]) and
//! writes back the returned frame. A `None` return means the connection
//! must be dropped: the payload did not decode (a protocol error, fatal to
//! this connection only), or the response could not be framed. Engine
//! failures are data — they come back as an error response and the
//! connection continues.

use vstd::prelude::*;

use crate::codec::{
    dec_request, enc_response, encode_response, decode_request, response_fits,
};
use crate::engine::KvsEngine;
use crate::protocol::{Request, RequestView, Response, ResponseView};
use crate::wire::{frame_of, make_frame};

verus! {

/// The store contents after one request is applied.
pub open spec fn next_model(
    m: Map<Seq<char>, Seq<char>>,
    req: RequestView,
) -> Map<Seq<char>, Seq<char>> {
    match req {
        RequestView::Get { .. } => m,
        RequestView::Scan { .. } => m,
        RequestView::Put { key, value } => m.insert(key, value),
        RequestView::Remove { key } => if m.contains_key(key) {
            m.remove(key)
        } else {
            m
        },
    }
}

/// The response one request earns against the given contents; a scan's
/// result is engine-defined and passed in as `scanned`.
pub open spec fn expected_reply(
    m: Map<Seq<char>, Seq<char>>,
    req: RequestView,
    scanned: Seq<Seq<char>>,
) -> ResponseView {
    match req {
        RequestView::Get { key } => ResponseView::Get {
            value: if m.contains_key(key) {
                Some(m[key])
            } else {
                None
            },
        },
        RequestView::Scan { .. } => ResponseView::Scan { values: scanned },
        RequestView::Put { .. } => ResponseView::Put,
        RequestView::Remove { key } => if m.contains_key(key) {
            ResponseView::Remove
        } else {
            ResponseView::Error { msg: "Key not found"@ }
        },
    }
}

/// What the engine's scan returns for this request; nothing for the other
/// request kinds.
pub open spec fn scan_reply_of<E: KvsEngine>(e: &E, req: RequestView) -> Seq<Seq<char>> {
    match req {
        RequestView::Scan { key } => e.scan_model(key),
        _ => Seq::<Seq<char>>::empty(),
    }
}

/// Dispatches one decoded request to the engine and builds the response.
/// The store changes exactly as [`next_model`] says, and the response is
/// exactly what [`expected_reply`] says — in particular, removing an
/// absent key earns an error response, never a panic.
pub fn handle_request<E: KvsEngine>(engine: &mut E, req: Request) -> (resp: Response)
    ensures
        final(engine).model() == next_model(old(engine).model(), req@),
        resp@ == expected_reply(
            old(engine).model(),
            req@,
            scan_reply_of::<E>(old(engine), req@),
        ),
{
    match req {
        Request::Get { key } => Response::Get(engine.get(&key)),
        Request::Scan { key } => Response::Scan(engine.scan(&key)),
        Request::Put { key, value } => {
            engine.set(key, value);
            Response::Put
        },
        Request::Remove { key } => match engine.remove(&key) {
            Ok(()) => Response::Remove,
            Err(e) => Response::Error(e.message()),
        },
    }
}

/// One full connection step: decode the payload, dispatch, encode the
/// response and frame it. `None` exactly when the payload is not one
/// request encoding (the connection's protocol error) or the response does
/// not fit a frame; a failed decode leaves the store untouched.
pub fn handle_frame<E: KvsEngine>(engine: &mut E, payload: &Vec<u8>) -> (r: Option<Vec<u8>>)
    ensures
        final(engine).model() == match dec_request(payload@) {
            Some(q) => next_model(old(engine).model(), q),
            None => old(engine).model(),
        },
        match dec_request(payload@) {
            Some(q) => {
                let rv = expected_reply(
                    old(engine).model(),
                    q,
                    scan_reply_of::<E>(old(engine), q),
                );
                if response_fits(rv) && enc_response(rv).len() <= u32::MAX {
                    r matches Some(f) && f@ == frame_of(enc_response(rv))
                } else {
                    r is None
                }
            },
            None => r is None,
        },
{
    match decode_request(payload) {
        Some(req) => {
            let resp = handle_request(engine, req);
            match encode_response(&resp) {
                Some(bytes) => {
                    if bytes.len() <= (u32::MAX as usize) {
                        Some(make_frame(bytes))
                    } else {
                        None
                    }
                },
                None => None,
            }
        },
        None => None,
    }
}

/// The server core: it owns one engine and performs the per-connection
/// dispatch step. Listening, accepting and the worker pool live outside
/// the library and feed payloads in.
pub struct KvsServer<E: KvsEngine> {
    engine: E,
}

impl<E: KvsEngine> KvsServer<E> {
    /// The contents of the server's store.
    pub closed spec fn model(&self) -> Map<Seq<char>, Seq<char>> {
        self.engine.model()
    }

    /// What a scan over the server's store returns for a pattern.
    pub closed spec fn scan_model(&self, pattern: Seq<char>) -> Seq<Seq<char>> {
        self.engine.scan_model(pattern)
    }

    /// What the engine's scan returns for this request; nothing for the
    /// other request kinds.
    pub closed spec fn scan_reply(&self, req: RequestView) -> Seq<Seq<char>> {
        scan_reply_of::<E>(&self.engine, req)
    }

    /// A server over the given storage engine.
    pub fn new(engine: E) -> (s: Self)
        ensures
            s.model() == engine.model(),
    {
        KvsServer { engine }
    }

    /// One connection step against the server's engine; see
    /// [`handle_frame`].
    pub fn serve_frame(&mut self, payload: &Vec<u8>) -> (r: Option<Vec<u8>>)
        ensures
            final(self).model() == match dec_request(payload@) {
                Some(q) => next_model(old(self).model(), q),
                None => old(self).model(),
            },
            match dec_request(payload@) {
                Some(q) => {
                    let rv = expected_reply(old(self).model(), q, old(self).scan_reply(q));
                    if response_fits(rv) && enc_response(rv).len() <= u32::MAX {
                        r matches Some(f) && f@ == frame_of(enc_response(rv))
                    } else {
                        r is None
                    }
                },
                None => r is None,
            },
    {
        handle_frame(&mut self.engine, payload)
    }
}

/// Where a connection stands: about to read a 4-byte header, about to read
/// the announced number of payload bytes, or torn down. The connection has
/// no other terminal state — it serves requests until the peer disconnects
/// or an unrecoverable I/O or protocol error occurs.
#[derive(Clone, Copy, Debug)]
pub enum ConnState {
    AwaitHeader,
    AwaitPayload { len: u32 },
    Closed,
}

/// What the connection's I/O driver observed: the header bytes it read, the
/// payload bytes it read, or the peer closing (or any read or write
/// failing).
pub enum ConnEvent {
    HeaderBytes([u8; 4]),
    PayloadBytes(Vec<u8>),
    Disconnected,
}

/// One transition of the per-connection state machine. The driver outside
/// the library reads what the state calls for (4 header bytes, or `len`
/// payload bytes), hands the result in as an event, writes the returned
/// frame if there is one, and drops the connection in `Closed`. Every
/// decision is here: how many bytes the header announced, whether the
/// payload decoded, what response to write. Exactly one response frame
/// comes out per payload received — strict request/response alternation —
/// and the store changes only on the dispatch of a decoded payload.
pub fn conn_step<E: KvsEngine>(state: ConnState, engine: &mut E, event: ConnEvent) -> (r: (
    ConnState,
    Option<Vec<u8>>,
))
    ensures
        match (state, event) {
            (ConnState::AwaitHeader, ConnEvent::HeaderBytes(h)) => {
                &&& final(engine).model() == old(engine).model()
                &&& r.0 == (ConnState::AwaitPayload { len: crate::wire::be32_value(h@) })
                &&& r.1 is None
            },
            (ConnState::AwaitPayload { len }, ConnEvent::PayloadBytes(p)) => {
                if p@.len() == len {
                    &&& final(engine).model() == (match dec_request(p@) {
                        Some(q) => next_model(old(engine).model(), q),
                        None => old(engine).model(),
                    })
                    &&& (match dec_request(p@) {
                        Some(q) => {
                            let rv = expected_reply(
                                old(engine).model(),
                                q,
                                scan_reply_of::<E>(old(engine), q),
                            );
                            if response_fits(rv) && enc_response(rv).len() <= u32::MAX {
                                r.0 is AwaitHeader && (r.1 matches Some(f) && f@ == frame_of(
                                    enc_response(rv),
                                ))
                            } else {
                                r.0 is Closed && r.1 is None
                            }
                        },
                        None => r.0 is Closed && r.1 is None,
                    })
                } else {
                    &&& final(engine).model() == old(engine).model()
                    &&& r.0 is Closed
                    &&& r.1 is None
                }
            },
            _ => {
                &&& final(engine).model() == old(engine).model()
                &&& r.0 is Closed
                &&& r.1 is None
            },
        },
{
    match (state, event) {
        (ConnState::AwaitHeader, ConnEvent::HeaderBytes(h)) => {
            let n = crate::wire::parse_header(&h);
            (ConnState::AwaitPayload { len: n }, None)
        },
        (ConnState::AwaitPayload { len }, ConnEvent::PayloadBytes(p)) => {
            if p.len() == len as usize {
                match handle_frame(engine, &p) {
                    Some(f) => (ConnState::AwaitHeader, Some(f)),
                    None => (ConnState::Closed, None),
                }
            } else {
                (ConnState::Closed, None)
            }
        },
        _ => (ConnState::Closed, None),
    }
}

/// Request/response pairing, first half: after a put of `v` under `k`, a
/// get of `k` against the resulting contents answers exactly `Some(v)`.
pub proof fn lemma_set_then_get(m: Map<Seq<char>, Seq<char>>, k: Seq<char>, v: Seq<char>)
    ensures
        ({
            let m1 = next_model(m, RequestView::Put { key: k, value: v });
            expected_reply(m1, RequestView::Get { key: k }, Seq::<Seq<char>>::empty())
                == (ResponseView::Get { value: Some(v) })
        }),
{
}

/// Request/response pairing, second half: a get of a key never put answers
/// the absent marker, not an error.
pub proof fn lemma_get_absent(m: Map<Seq<char>, Seq<char>>, k: Seq<char>)
    requires
        !m.contains_key(k),
    ensures
        expected_reply(m, RequestView::Get { key: k }, Seq::<Seq<char>>::empty())
            == (ResponseView::Get { value: None }),
{
}

/// Remove-then-get: after a put of `k`, a remove of `k` is acknowledged
/// and a following get answers the absent marker.
pub proof fn lemma_set_remove_get(m: Map<Seq<char>, Seq<char>>, k: Seq<char>, v: Seq<char>)
    ensures
        ({
            let m1 = next_model(m, RequestView::Put { key: k, value: v });
            let m2 = next_model(m1, RequestView::Remove { key: k });
            expected_reply(m1, RequestView::Remove { key: k }, Seq::<Seq<char>>::empty())
                == ResponseView::Remove && expected_reply(
                m2,
                RequestView::Get { key: k },
                Seq::<Seq<char>>::empty(),
            ) == (ResponseView::Get { value: None })
        }),
{
}

/// Removing an absent key earns an error response and leaves the contents
/// unchanged.
pub proof fn lemma_remove_absent(m: Map<Seq<char>, Seq<char>>, k: Seq<char>)
    requires
        !m.contains_key(k),
    ensures
        next_model(m, RequestView::Remove { key: k }) == m,
        expected_reply(m, RequestView::Remove { key: k }, Seq::<Seq<char>>::empty())
            == (ResponseView::Error { msg: "Key not found"@ }),
{
}

/// Scan emptiness: against an empty store, a scan answers the empty list —
/// a successful scan response, not an error.
pub proof fn lemma_scan_empty<E: KvsEngine>(e: &E, pattern: Seq<char>)
    requires
        e.model() == Map::<Seq<char>, Seq<char>>::empty(),
    ensures
        expected_reply(
            e.model(),
            RequestView::Scan { key: pattern },
            scan_reply_of::<E>(e, RequestView::Scan { key: pattern }),
        ) == (ResponseView::Scan { values: Seq::<Seq<char>>::empty() }),
{
    e.lemma_scan_model_empty(pattern);
}

/// Whether a request writes to the given key.
pub open spec fn touches_key(req: RequestView, k: Seq<char>) -> bool {
    match req {
        RequestView::Put { key, .. } => key == k,
        RequestView::Remove { key } => key == k,
        _ => false,
    }
}

/// The store contents after a sequence of requests is applied in order.
pub open spec fn run_requests(
    m: Map<Seq<char>, Seq<char>>,
    reqs: Seq<RequestView>,
) -> Map<Seq<char>, Seq<char>>
    decreases reqs.len(),
{
    if reqs.len() == 0 {
        m
    } else {
        run_requests(next_model(m, reqs[0]), reqs.drop_first())
    }
}

/// Requests that write only other keys never disturb a key: under any
/// interleaving of other connections' traffic on disjoint keys, a key's
/// presence and value are preserved.
pub proof fn lemma_disjoint_requests_preserve_key(
    m: Map<Seq<char>, Seq<char>>,
    reqs: Seq<RequestView>,
    k: Seq<char>,
)
    requires
        forall|i: int| 0 <= i < reqs.len() ==> !touches_key(#[trigger] reqs[i], k),
    ensures
        run_requests(m, reqs).contains_key(k) == m.contains_key(k),
        m.contains_key(k) ==> run_requests(m, reqs)[k] == m[k],
    decreases reqs.len(),
{
    if reqs.len() > 0 {
        let m1 = next_model(m, reqs[0]);
        assert(!touches_key(reqs[0], k));
        assert(m1.contains_key(k) == m.contains_key(k) && (m.contains_key(k) ==> m1[k] == m[k]));
        assert(forall|i: int|
            0 <= i < reqs.drop_first().len() ==> !touches_key(
                #[trigger] reqs.drop_first()[i],
                k,
            ));
        lemma_disjoint_requests_preserve_key(m1, reqs.drop_first(), k);
    }
}

/// Per-key read-your-writes under concurrency: a connection that puts `v`
/// under `k` and later gets `k` sees `Some(v)`, whatever requests on other
/// keys were interleaved between the two by other connections.
pub proof fn lemma_read_your_writes(
    m: Map<Seq<char>, Seq<char>>,
    k: Seq<char>,
    v: Seq<char>,
    interleaved: Seq<RequestView>,
)
    requires
        forall|i: int| 0 <= i < interleaved.len() ==> !touches_key(#[trigger] interleaved[i], k),
    ensures
        ({
            let m1 = next_model(m, RequestView::Put { key: k, value: v });
            let m2 = run_requests(m1, interleaved);
            expected_reply(m2, RequestView::Get { key: k }, Seq::<Seq<char>>::empty())
                == (ResponseView::Get { value: Some(v) })
        }),
{
    let m1 = next_model(m, RequestView::Put { key: k, value: v });
    lemma_disjoint_requests_preserve_key(m1, interleaved, k);
}

} // verus!
