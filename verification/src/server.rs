//! Server side of a call: handler dispatch and the per-connection serve
//! loop.
//!
//! The embedding code accepts connections and runs one receive loop per
//! connection, outside this crate: it reads one request frame's bytes,
//! hands them to `serve_frame`, writes the returned response frame back,
//! and on an error closes that one connection. A connection's responses
//! are therefore produced strictly in receipt order
//! (`lemma_responses_in_order`), and one connection's requests never
//! affect another's responses (`lemma_dispatch_isolation`).

use vstd::prelude::*;
use crate::codec::{
    decode_request, encode_response, response_fits, spec_decode_request, spec_encode_response,
};

verus! {

/// What a handler returns for one served request.
#[derive(Debug)]
pub struct Reply {
    pub status: i32,
    pub flags: u32,
    pub metadata: Vec<u8>,
    pub data: Vec<u8>,
}

/// Why a handler refused a request.
#[derive(Clone, Copy, Debug, PartialEq, Eq, Structural)]
pub enum HandlerError {
    /// The operation type has no case in this deployment; a handler must
    /// fail on such a request, never fabricate a success.
    UnsupportedOperation,
    /// The handler could not serve the request.
    Failed,
}

/// The capability the embedding application supplies to a server: a pure
/// mapping from one decoded request to one response tuple. It is shared
/// read-only across every connection the server serves, and it must not
/// assume anything about transport framing.
pub trait Handler {
    /// The mapping this handler implements; `None` where it fails.
    spec fn dispatch_spec(
        &self,
        operation_type: u32,
        flags: u32,
        path: Seq<u8>,
        data: Seq<u8>,
        metadata: Seq<u8>,
    ) -> Option<(i32, u32, Seq<u8>, Seq<u8>)>;

    /// Maps one decoded request to one response tuple, or fails.
    fn dispatch(
        &self,
        operation_type: u32,
        flags: u32,
        path: &[u8],
        data: &[u8],
        metadata: &[u8],
    ) -> (r: Result<Reply, HandlerError>)
        ensures
            match r {
                Ok(reply) => self.dispatch_spec(operation_type, flags, path@, data@, metadata@)
                    == Some((reply.status, reply.flags, reply.metadata@, reply.data@)),
                Err(_) => self.dispatch_spec(operation_type, flags, path@, data@, metadata@)
                    is None,
            },
    ;
}

/// Why serving one request frame failed; any of these ends the serving
/// connection's loop and no other connection's.
#[derive(Clone, Copy, Debug, PartialEq, Eq, Structural)]
pub enum ServeError {
    /// The request frame did not parse.
    MalformedRequest,
    /// The handler failed for this request.
    HandlerFailed,
    /// The handler's reply does not fit in a response frame.
    ResponseTooLong,
}

/// What serving one request frame yields: the response frame's bytes, or
/// nothing where decoding, dispatch or re-encoding fails.
pub open spec fn spec_serve_frame<H: Handler>(handler: &H, request: Seq<u8>) -> Option<Seq<u8>> {
    match spec_decode_request(request) {
        Ok((operation_type, flags, path, data, metadata)) => match handler.dispatch_spec(
            operation_type,
            flags,
            path,
            data,
            metadata,
        ) {
            Some((status, rflags, rmetadata, rdata)) => if response_fits(rmetadata, rdata) {
                Some(spec_encode_response(status, rflags, rmetadata, rdata))
            } else {
                None
            },
            None => None,
        },
        Err(_) => None,
    }
}

/// The request decodes, but the handler fails on it.
pub open spec fn spec_dispatch_fails<H: Handler>(handler: &H, request: Seq<u8>) -> bool {
    spec_decode_request(request) matches Ok((operation_type, flags, path, data, metadata))
        && handler.dispatch_spec(operation_type, flags, path, data, metadata) is None
}

/// The request decodes and the handler replies, but the reply does not
/// fit in a response frame.
pub open spec fn spec_reply_too_long<H: Handler>(handler: &H, request: Seq<u8>) -> bool {
    spec_decode_request(request) matches Ok((operation_type, flags, path, data, metadata))
        && (handler.dispatch_spec(operation_type, flags, path, data, metadata) matches Some(
        (status, rflags, rmetadata, rdata),
    ) && !response_fits(rmetadata, rdata))
}

/// Serves one request frame: decodes it, dispatches it to the handler,
/// and encodes the reply as a response frame. Each failure names its
/// stage, and failure is exactly where `spec_serve_frame` yields nothing.
pub fn serve_frame<H: Handler>(handler: &H, request: &[u8]) -> (r: Result<Vec<u8>, ServeError>)
    ensures
        match r {
            Ok(response) => spec_serve_frame(handler, request@) == Some(response@),
            Err(e) => {
                &&& spec_serve_frame(handler, request@) is None
                &&& (e == ServeError::MalformedRequest <==> spec_decode_request(request@) is Err)
                &&& (e == ServeError::HandlerFailed <==> spec_dispatch_fails(handler, request@))
                &&& (e == ServeError::ResponseTooLong <==> spec_reply_too_long(handler, request@))
            },
        },
{
    let frame = match decode_request(request) {
        Ok(f) => f,
        Err(_) => {
            return Err(ServeError::MalformedRequest);
        },
    };
    let reply = match handler.dispatch(
        frame.operation_type,
        frame.flags,
        frame.path.as_slice(),
        frame.data.as_slice(),
        frame.metadata.as_slice(),
    ) {
        Ok(reply) => reply,
        Err(_) => {
            return Err(ServeError::HandlerFailed);
        },
    };
    match encode_response(
        reply.status,
        reply.flags,
        reply.metadata.as_slice(),
        reply.data.as_slice(),
    ) {
        Ok(response) => Ok(response),
        Err(_) => Err(ServeError::ResponseTooLong),
    }
}

/// The responses one connection's loop writes for the request frames it
/// reads, in receipt order: each request is served fully before the next
/// is read, and the first failure ends the loop.
pub open spec fn spec_conn_responses<H: Handler>(handler: &H, requests: Seq<Seq<u8>>) -> Seq<
    Seq<u8>,
>
    decreases requests.len(),
{
    if requests.len() == 0 {
        Seq::empty()
    } else {
        match spec_serve_frame(handler, requests[0]) {
            Some(response) => seq![response] + spec_conn_responses(handler, requests.skip(1)),
            None => Seq::empty(),
        }
    }
}

/// Responses come back in request order: a connection's loop answers a
/// prefix of its requests, and its `i`-th response is exactly the served
/// `i`-th request.
pub proof fn lemma_responses_in_order<H: Handler>(handler: &H, requests: Seq<Seq<u8>>)
    ensures
        spec_conn_responses(handler, requests).len() <= requests.len(),
        forall|i: int|
            0 <= i < spec_conn_responses(handler, requests).len() ==> spec_serve_frame(
                handler,
                requests[i],
            ) == Some(spec_conn_responses(handler, requests)[i]),
    decreases requests.len(),
{
    if requests.len() > 0 {
        match spec_serve_frame(handler, requests[0]) {
            Some(response) => {
                lemma_responses_in_order(handler, requests.skip(1));
                let rest = spec_conn_responses(handler, requests.skip(1));
                let whole = spec_conn_responses(handler, requests);
                assert(whole == seq![response] + rest);
                assert forall|i: int| 0 <= i < whole.len() implies spec_serve_frame(
                    handler,
                    requests[i],
                ) == Some(whole[i]) by {
                    if i == 0 {
                        assert(whole[0] == response);
                    } else {
                        assert(whole[i] == rest[i - 1]);
                        assert(requests.skip(1)[i - 1] == requests[i]);
                    }
                }
            },
            None => {},
        }
    }
}

/// What a server produces across its connections: each connection's
/// requests served independently, by the one shared handler.
pub open spec fn spec_server_responses<H: Handler>(
    handler: &H,
    connections: Seq<Seq<Seq<u8>>>,
) -> Seq<Seq<Seq<u8>>> {
    connections.map_values(|requests: Seq<Seq<u8>>| spec_conn_responses(handler, requests))
}

/// Dispatch isolation: one connection's responses depend on its own
/// requests alone. However another connection's requests change — in
/// particular, however they make the handler fail — connection `i`'s
/// responses stand.
pub proof fn lemma_dispatch_isolation<H: Handler>(
    handler: &H,
    connections: Seq<Seq<Seq<u8>>>,
    other_connections: Seq<Seq<Seq<u8>>>,
    i: int,
)
    requires
        connections.len() == other_connections.len(),
        0 <= i < connections.len(),
        connections[i] == other_connections[i],
    ensures
        spec_server_responses(handler, connections)[i] == spec_server_responses(
            handler,
            other_connections,
        )[i],
{
}

/// Runs one connection's serve loop over the request frames it received,
/// in order, stopping at the first failure: exactly the responses that
/// `spec_conn_responses` names, written back in order.
pub fn serve_connection<H: Handler>(handler: &H, requests: &Vec<Vec<u8>>) -> (responses: Vec<
    Vec<u8>,
>)
    ensures
        responses@.map_values(|v: Vec<u8>| v@) == spec_conn_responses(
            handler,
            requests@.map_values(|v: Vec<u8>| v@),
        ),
{
    let ghost reqs = requests@.map_values(|v: Vec<u8>| v@);
    let mut responses: Vec<Vec<u8>> = Vec::new();
    let mut i: usize = 0;
    proof {
        assert(responses@.map_values(|v: Vec<u8>| v@) =~= Seq::<Seq<u8>>::empty());
        assert(reqs.skip(0) =~= reqs);
    }
    while i < requests.len()
        invariant
            i <= reqs.len(),
            reqs == requests@.map_values(|v: Vec<u8>| v@),
            responses@.map_values(|v: Vec<u8>| v@).len() == i,
            spec_conn_responses(handler, reqs) == responses@.map_values(|v: Vec<u8>| v@)
                + spec_conn_responses(handler, reqs.skip(i as int)),
        decreases reqs.len() - i,
    {
        let ghost before = responses@.map_values(|v: Vec<u8>| v@);
        match serve_frame(handler, requests[i].as_slice()) {
            Ok(response) => {
                proof {
                    assert(reqs.skip(i as int)[0] == reqs[i as int]);
                    assert(reqs.skip(i as int).skip(1) =~= reqs.skip(i as int + 1));
                    assert(spec_conn_responses(handler, reqs.skip(i as int)) == seq![response@]
                        + spec_conn_responses(handler, reqs.skip(i as int + 1)));
                }
                responses.push(response);
                proof {
                    assert(responses@.map_values(|v: Vec<u8>| v@) =~= before.push(
                        responses@[responses@.len() - 1]@,
                    ));
                    assert(before + (seq![responses@[responses@.len() - 1]@]
                        + spec_conn_responses(handler, reqs.skip(i as int + 1))) =~= (before
                        + seq![responses@[responses@.len() - 1]@]) + spec_conn_responses(
                        handler,
                        reqs.skip(i as int + 1),
                    ));
                    assert(before.push(responses@[responses@.len() - 1]@) =~= before + seq![
                        responses@[responses@.len() - 1]@,
                    ]);
                }
                i = i + 1;
            },
            Err(_) => {
                proof {
                    assert(reqs.skip(i as int)[0] == reqs[i as int]);
                    assert(spec_conn_responses(handler, reqs.skip(i as int))
                        =~= Seq::<Seq<u8>>::empty());
                    assert(spec_conn_responses(handler, reqs) =~= responses@.map_values(
                        |v: Vec<u8>| v@,
                    ));
                }
                return responses;
            },
        }
    }
    proof {
        assert(reqs.skip(reqs.len() as int) =~= Seq::<Seq<u8>>::empty());
        assert(spec_conn_responses(handler, reqs) =~= responses@.map_values(|v: Vec<u8>| v@));
    }
    responses
}

} // verus!
