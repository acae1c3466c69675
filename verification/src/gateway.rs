//! The gateway's request-handling path: request and response shapes, the
//! error taxonomy, the failure-to-response mapper, and the handlers.
//!
//! A handler decodes a JSON request body, invokes the shared store client,
//! and maps the result or failure to an HTTP reply. Every failure degrades to
//! a well-formed reply — a handler never panics — and both failure kinds
//! collapse to the internal-error status, with the backend's failure detail
//! embedded in the body.

use vstd::prelude::*;

use crate::json::escaped;
use crate::json::get_body;
use crate::json::parse_get_body;
use crate::json::parse_get_spec;
use crate::json::parse_set_body;
use crate::json::parse_set_spec;
use crate::json::push_escaped;
use crate::json::render_get_body;
use crate::json::QUOTE;
use crate::store::Ack;
use crate::store::BackendError;
use crate::store::StoreApi;

verus! {

/// A fetch request: the key whose value the caller wants.
pub struct GetRequest {
    pub key: Vec<u8>,
}

/// A store request: a key and the value to associate with it.
pub struct SetRequest {
    pub key: Vec<u8>,
    pub value: Vec<u8>,
}

/// A failure of one gateway operation: the shared client could not be
/// acquired, or the backend call failed (absent key, unreachable backend, or
/// malformed reply, undifferentiated).
pub enum GatewayError {
    LockFailure,
    BackendFailure(BackendError),
}

/// An HTTP response the gateway sends: a status code and a body.
pub struct HttpReply {
    pub status: u16,
    pub body: Vec<u8>,
}

/// `Internal server error`, the generic detail-free message.
pub open spec fn lock_error_text() -> Seq<u8> {
    seq![73u8, 110u8, 116u8, 101u8, 114u8, 110u8, 97u8, 108u8, 32u8, 115u8, 101u8, 114u8, 118u8, 101u8, 114u8, 32u8, 101u8, 114u8, 114u8, 111u8, 114u8]
}

/// `Failed to retrieve value: `, prefixed to a backend failure's detail.
pub open spec fn backend_prefix_text() -> Seq<u8> {
    seq![70u8, 97u8, 105u8, 108u8, 101u8, 100u8, 32u8, 116u8, 111u8, 32u8, 114u8, 101u8, 116u8, 114u8, 105u8, 101u8, 118u8, 101u8, 32u8, 118u8, 97u8, 108u8, 117u8, 101u8, 58u8, 32u8]
}

/// `Invalid request body`, for bytes that do not form the route's JSON shape.
pub open spec fn invalid_body_text() -> Seq<u8> {
    seq![73u8, 110u8, 118u8, 97u8, 108u8, 105u8, 100u8, 32u8, 114u8, 101u8, 113u8, 117u8, 101u8, 115u8, 116u8, 32u8, 98u8, 111u8, 100u8, 121u8]
}

/// `null`: the opaque acknowledgement body of a completed store request.
pub open spec fn ack_body() -> Seq<u8> {
    seq![110u8, 117u8, 108u8, 108u8]
}

/// The body sent for a lock failure: the generic message as a JSON string,
/// with no failure detail.
pub open spec fn lock_failure_body() -> Seq<u8> {
    seq![QUOTE] + lock_error_text() + seq![QUOTE]
}

/// The body sent for a failed backend call: a JSON string holding the
/// underlying failure detail.
pub open spec fn backend_failure_body(detail: Seq<u8>) -> Seq<u8> {
    seq![QUOTE] + backend_prefix_text() + escaped(detail) + seq![QUOTE]
}

/// The body sent for a request body that does not parse.
pub open spec fn malformed_body() -> Seq<u8> {
    seq![QUOTE] + invalid_body_text() + seq![QUOTE]
}

/// Append the generic internal-error message.
fn push_lock_error_text(out: &mut Vec<u8>)
    ensures
        final(out)@ == old(out)@ + lock_error_text(),
{
    out.push(73);
    out.push(110);
    out.push(116);
    out.push(101);
    out.push(114);
    out.push(110);
    out.push(97);
    out.push(108);
    out.push(32);
    out.push(115);
    out.push(101);
    out.push(114);
    out.push(118);
    out.push(101);
    out.push(114);
    out.push(32);
    out.push(101);
    out.push(114);
    out.push(114);
    out.push(111);
    out.push(114);
    proof {
        assert(out@ =~= old(out)@ + lock_error_text());
    }
}

/// Append the backend-failure prefix.
fn push_backend_prefix_text(out: &mut Vec<u8>)
    ensures
        final(out)@ == old(out)@ + backend_prefix_text(),
{
    out.push(70);
    out.push(97);
    out.push(105);
    out.push(108);
    out.push(101);
    out.push(100);
    out.push(32);
    out.push(116);
    out.push(111);
    out.push(32);
    out.push(114);
    out.push(101);
    out.push(116);
    out.push(114);
    out.push(105);
    out.push(101);
    out.push(118);
    out.push(101);
    out.push(32);
    out.push(118);
    out.push(97);
    out.push(108);
    out.push(117);
    out.push(101);
    out.push(58);
    out.push(32);
    proof {
        assert(out@ =~= old(out)@ + backend_prefix_text());
    }
}

/// Append the malformed-request message.
fn push_invalid_body_text(out: &mut Vec<u8>)
    ensures
        final(out)@ == old(out)@ + invalid_body_text(),
{
    out.push(73);
    out.push(110);
    out.push(118);
    out.push(97);
    out.push(108);
    out.push(105);
    out.push(100);
    out.push(32);
    out.push(114);
    out.push(101);
    out.push(113);
    out.push(117);
    out.push(101);
    out.push(115);
    out.push(116);
    out.push(32);
    out.push(98);
    out.push(111);
    out.push(100);
    out.push(121);
    proof {
        assert(out@ =~= old(out)@ + invalid_body_text());
    }
}

/// Map a classified failure to its HTTP reply: both kinds collapse to the
/// internal-error status; a lock failure carries the generic message, a
/// backend failure carries the underlying detail. The body is never empty.
pub fn error_response(e: &GatewayError) -> (r: HttpReply)
    ensures
        r.status == 500,
        (e is LockFailure) ==> r.body@ == lock_failure_body(),
        e matches GatewayError::BackendFailure(b) ==> r.body@ == backend_failure_body(b.detail@),
        r.body@.len() > 0,
{
    match e {
        GatewayError::LockFailure => {
            let mut body: Vec<u8> = Vec::new();
            body.push(QUOTE);
            push_lock_error_text(&mut body);
            body.push(QUOTE);
            proof {
                assert(body@ =~= lock_failure_body());
            }
            HttpReply { status: 500, body }
        },
        GatewayError::BackendFailure(err) => {
            let mut body: Vec<u8> = Vec::new();
            body.push(QUOTE);
            push_backend_prefix_text(&mut body);
            push_escaped(&mut body, &err.detail);
            body.push(QUOTE);
            proof {
                assert(body@ =~= backend_failure_body(err.detail@));
            }
            HttpReply { status: 500, body }
        },
    }
}

/// The reply for a request whose body does not parse: a client-visible
/// bad-request error, never a crash.
pub fn malformed_response() -> (r: HttpReply)
    ensures
        r.status == 400,
        r.body@ == malformed_body(),
        r.body@.len() > 0,
{
    let mut body: Vec<u8> = Vec::new();
    body.push(QUOTE);
    push_invalid_body_text(&mut body);
    body.push(QUOTE);
    proof {
        assert(body@ =~= malformed_body());
    }
    HttpReply { status: 400, body }
}

/// Map a fetch outcome to its HTTP reply: a fetched value is sent as the
/// response body for the requested key, a failure through the error mapper.
pub fn respond_get(key: &Vec<u8>, outcome: Result<Vec<u8>, BackendError>) -> (r: HttpReply)
    ensures
        outcome matches Ok(v) ==> r.status == 200 && r.body@ == get_body(key@, v@),
        outcome matches Err(e) ==> r.status == 500 && r.body@ == backend_failure_body(e.detail@),
        r.body@.len() > 0,
{
    match outcome {
        Ok(v) => HttpReply { status: 200, body: render_get_body(key, &v) },
        Err(e) => error_response(&GatewayError::BackendFailure(e)),
    }
}

/// Map a store outcome to its HTTP reply: an acknowledgement carries the
/// opaque success body, a failure goes through the error mapper.
pub fn respond_set(outcome: Result<Ack, BackendError>) -> (r: HttpReply)
    ensures
        outcome matches Ok(_) ==> r.status == 200 && r.body@ == ack_body(),
        outcome matches Err(e) ==> r.status == 500 && r.body@ == backend_failure_body(e.detail@),
        r.body@.len() > 0,
{
    match outcome {
        Ok(_) => {
            let mut body: Vec<u8> = Vec::new();
            body.push(110);
            body.push(117);
            body.push(108);
            body.push(108);
            proof {
                assert(body@ =~= ack_body());
            }
            HttpReply { status: 200, body }
        },
        Err(e) => error_response(&GatewayError::BackendFailure(e)),
    }
}

/// The process-wide gateway state: exclusive owner of the one long-lived
/// store client. Handlers take `&mut self`, so the client never sees two
/// overlapping calls; the unverified edge supplies that exclusion at run time
/// by holding the single instance behind a lock for the process lifetime.
pub struct GatewayState<T: StoreApi> {
    client: T,
}

impl<T: StoreApi> GatewayState<T> {
    /// The key-value association the gateway's client currently holds.
    pub closed spec fn model(&self) -> Map<Seq<u8>, Seq<u8>> {
        self.client.model()
    }

    /// Take ownership of the one client instance.
    pub fn new(client: T) -> (s: Self)
        ensures
            s.model() == client.model(),
    {
        GatewayState { client }
    }

    /// The fetch handler after decoding: call `get` on the shared client and
    /// map the outcome. A fetch never changes the store; a success reply
    /// carries exactly the value the store held for the key, and a key the
    /// store does not hold always yields the internal-error status with a
    /// non-empty backend-failure body.
    pub fn get_value(&mut self, req: &GetRequest) -> (r: HttpReply)
        ensures
            final(self).model() == old(self).model(),
            r.status == 200 || r.status == 500,
            r.status == 200 ==> old(self).model().contains_key(req.key@) && r.body@ == get_body(
                req.key@,
                old(self).model().index(req.key@),
            ),
            !old(self).model().contains_key(req.key@) ==> r.status == 500,
            r.status == 500 ==> (exists|d: Seq<u8>| r.body@ == backend_failure_body(d)),
            r.body@.len() > 0,
    {
        let outcome = self.client.get(&req.key);
        respond_get(&req.key, outcome)
    }

    /// The store handler after decoding: call `set` on the shared client and
    /// map the outcome. An acknowledged store leaves the client holding
    /// exactly the old association updated at the key.
    pub fn set_value(&mut self, req: &SetRequest) -> (r: HttpReply)
        ensures
            r.status == 200 || r.status == 500,
            r.status == 200 ==> final(self).model() == old(self).model().insert(
                req.key@,
                req.value@,
            ) && r.body@ == ack_body(),
            r.status == 500 ==> (exists|d: Seq<u8>| r.body@ == backend_failure_body(d)),
            r.body@.len() > 0,
    {
        let outcome = self.client.set(&req.key, &req.value);
        respond_set(outcome)
    }

    /// The whole fetch route on raw body bytes: decode, fetch, respond. Bytes
    /// that do not form a fetch request yield the bad-request reply and leave
    /// the store untouched.
    pub fn handle_get_body(&mut self, body: &Vec<u8>) -> (r: HttpReply)
        ensures
            final(self).model() == old(self).model(),
            (parse_get_spec(body@) is None) ==> r.status == 400 && r.body@ == malformed_body(),
            parse_get_spec(body@) matches Some(k) ==> (r.status == 200 || r.status == 500),
            parse_get_spec(body@) matches Some(k) ==> (r.status == 200 ==> old(
                self,
            ).model().contains_key(k) && r.body@ == get_body(k, old(self).model().index(k))),
            parse_get_spec(body@) matches Some(k) ==> (!old(self).model().contains_key(k)
                ==> r.status == 500),
            r.status == 500 ==> (exists|d: Seq<u8>| r.body@ == backend_failure_body(d)),
            r.body@.len() > 0,
    {
        match parse_get_body(body) {
            None => malformed_response(),
            Some(key) => {
                let req = GetRequest { key };
                self.get_value(&req)
            },
        }
    }

    /// The whole store route on raw body bytes: decode, store, respond. Bytes
    /// that do not form a store request yield the bad-request reply and leave
    /// the store untouched.
    pub fn handle_set_body(&mut self, body: &Vec<u8>) -> (r: HttpReply)
        ensures
            (parse_set_spec(body@) is None) ==> r.status == 400 && r.body@ == malformed_body()
                && final(self).model() == old(self).model(),
            parse_set_spec(body@) matches Some(p) ==> (r.status == 200 || r.status == 500),
            parse_set_spec(body@) matches Some(p) ==> (r.status == 200 ==> final(self).model()
                == old(self).model().insert(p.0, p.1) && r.body@ == ack_body()),
            r.status == 500 ==> (exists|d: Seq<u8>| r.body@ == backend_failure_body(d)),
            r.body@.len() > 0,
    {
        match parse_set_body(body) {
            None => malformed_response(),
            Some(kv) => {
                let req = SetRequest { key: kv.0, value: kv.1 };
                self.set_value(&req)
            },
        }
    }
}

/// A store acknowledged with success, followed by a fetch of the same key
/// with no intervening write, yields the success body holding exactly the
/// value stored: the round trip across the handlers' contracts. The store
/// handler leaves the model at `m.insert(k, v)`; on that model the fetch
/// handler's success body is the one rendered for the value written.
pub proof fn lemma_set_then_get_reply(m: Map<Seq<u8>, Seq<u8>>, k: Seq<u8>, v: Seq<u8>)
    ensures
        m.insert(k, v).contains_key(k),
        get_body(k, m.insert(k, v).index(k)) == get_body(k, v),
{
}

/// Both failure kinds map to the internal-error status with a body that is
/// never empty, and a backend failure's body embeds the underlying detail:
/// the response side of the error taxonomy, stated over the body shapes.
pub proof fn lemma_error_bodies_nonempty(detail: Seq<u8>)
    ensures
        lock_failure_body().len() > 0,
        backend_failure_body(detail).len() > 0,
        malformed_body().len() > 0,
{
}

} // verus!
