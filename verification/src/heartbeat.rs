//! Heartbeat keep-alive protocol: the announcement a node sends the
//! cluster manager on a fixed period, the manager-side handler that
//! acknowledges it, and the reporter that decides the sending loop.
//!
//! The announcement `{address, flags, lifetime}` travels as the request's
//! data segment in a fixed-width little-endian layout: each byte string is
//! prefixed with its length as a `u64`, the flags are a `u32`. This is the
//! layout the common Rust binary serializers give such a tuple, so peers
//! that encode it with one interoperate byte for byte.
//!
//! The timer runs outside this crate: on each tick the embedding code
//! sends `tick_data` with `heartbeat_request_args` and reports the call's
//! outcome to `record_outcome`, which owns the bounded failure policy —
//! one failed round never ends the loop by itself; only
//! `max_consecutive_failures` failed rounds in a row do.

use vstd::prelude::*;
use vstd::bytes::{
    lemma_auto_spec_u32_to_from_le_bytes, lemma_auto_spec_u64_to_from_le_bytes,
    spec_u32_from_le_bytes, spec_u32_to_le_bytes, spec_u64_from_le_bytes, spec_u64_to_le_bytes,
    u32_from_le_bytes, u32_to_le_bytes, u64_from_le_bytes, u64_to_le_bytes,
};
use vstd::slice::{slice_subrange, slice_to_vec};
use crate::codec::push_bytes;
use crate::server::{Handler, HandlerError, Reply};

verus! {

/// Operation type code of a heartbeat announcement, agreed upon by every
/// node and the manager.
pub const OP_SEND_HEART: u32 = 1;

/// Role flag a storage server sets in its heartbeat.
pub const SERVER_FLAG: u32 = 1;

/// One liveness announcement, built fresh on every tick.
#[derive(Debug)]
pub struct HeartbeatRequest {
    /// The announcing node's own address.
    pub address: Vec<u8>,
    /// Role flags of the announcing node.
    pub flags: u32,
    /// Requested lease lifetime, as configured (e.g. `30s`).
    pub lifetime: Vec<u8>,
}

/// The byte layout of one announcement.
pub open spec fn spec_encode_heartbeat(address: Seq<u8>, flags: u32, lifetime: Seq<u8>) -> Seq<
    u8,
> {
    spec_u64_to_le_bytes(address.len() as u64) + address + spec_u32_to_le_bytes(flags)
        + spec_u64_to_le_bytes(lifetime.len() as u64) + lifetime
}

/// The one way a byte sequence parses as an announcement, if any.
pub open spec fn spec_decode_heartbeat(buf: Seq<u8>) -> Option<(Seq<u8>, u32, Seq<u8>)> {
    if buf.len() < 8 {
        None
    } else {
        let address_len = spec_u64_from_le_bytes(buf.subrange(0, 8)) as int;
        if buf.len() < 20 + address_len {
            None
        } else {
            let address = buf.subrange(8, 8 + address_len);
            let flags = spec_u32_from_le_bytes(buf.subrange(8 + address_len, 12 + address_len));
            let lifetime_len = spec_u64_from_le_bytes(
                buf.subrange(12 + address_len, 20 + address_len),
            ) as int;
            if buf.len() != 20 + address_len + lifetime_len {
                None
            } else {
                Some(
                    (
                        address,
                        flags,
                        buf.subrange(20 + address_len, 20 + address_len + lifetime_len),
                    ),
                )
            }
        }
    }
}

/// Encodes one announcement.
pub fn encode_heartbeat(address: &[u8], flags: u32, lifetime: &[u8]) -> (r: Vec<u8>)
    ensures
        r@ == spec_encode_heartbeat(address@, flags, lifetime@),
{
    let mut buf = u64_to_le_bytes(address.len() as u64);
    push_bytes(&mut buf, address);
    let mut field = u32_to_le_bytes(flags);
    buf.append(&mut field);
    let mut field = u64_to_le_bytes(lifetime.len() as u64);
    buf.append(&mut field);
    push_bytes(&mut buf, lifetime);
    proof {
        assert(buf@ =~= spec_encode_heartbeat(address@, flags, lifetime@));
    }
    buf
}

/// Decodes one announcement; the result is exactly what
/// `spec_decode_heartbeat` says.
pub fn decode_heartbeat(buf: &[u8]) -> (r: Option<HeartbeatRequest>)
    ensures
        match r {
            Some(h) => spec_decode_heartbeat(buf@) == Some((h.address@, h.flags, h.lifetime@)),
            None => spec_decode_heartbeat(buf@) is None,
        },
{
    let n = buf.len();
    if n < 8 {
        return None;
    }
    let address_len64 = u64_from_le_bytes(slice_subrange(buf, 0, 8));
    if n < 20 || address_len64 > (n - 20) as u64 {
        proof {
            assert(spec_decode_heartbeat(buf@) is None);
        }
        return None;
    }
    let address_len = address_len64 as usize;
    let flags = u32_from_le_bytes(slice_subrange(buf, 8 + address_len, 12 + address_len));
    let lifetime_len64 = u64_from_le_bytes(slice_subrange(buf, 12 + address_len, 20 + address_len));
    if lifetime_len64 != (n - 20 - address_len) as u64 {
        proof {
            assert(spec_decode_heartbeat(buf@) is None);
        }
        return None;
    }
    let address = slice_to_vec(slice_subrange(buf, 8, 8 + address_len));
    let lifetime = slice_to_vec(slice_subrange(buf, 20 + address_len, n));
    Some(HeartbeatRequest { address, flags, lifetime })
}

/// Encoding then decoding an announcement reproduces it exactly.
pub proof fn lemma_heartbeat_round_trip(address: Seq<u8>, flags: u32, lifetime: Seq<u8>)
    requires
        address.len() <= u64::MAX,
        lifetime.len() <= u64::MAX,
    ensures
        spec_decode_heartbeat(spec_encode_heartbeat(address, flags, lifetime)) == Some(
            (address, flags, lifetime),
        ),
{
    lemma_auto_spec_u64_to_from_le_bytes();
    lemma_auto_spec_u32_to_from_le_bytes();
    let buf = spec_encode_heartbeat(address, flags, lifetime);
    let address_len = address.len() as int;
    let lifetime_len = lifetime.len() as int;
    assert(buf.subrange(0, 8) =~= spec_u64_to_le_bytes(address.len() as u64));
    assert(buf.subrange(8, 8 + address_len) =~= address);
    assert(buf.subrange(8 + address_len, 12 + address_len) =~= spec_u32_to_le_bytes(flags));
    assert(buf.subrange(12 + address_len, 20 + address_len) =~= spec_u64_to_le_bytes(
        lifetime.len() as u64,
    ));
    assert(buf.subrange(20 + address_len, 20 + address_len + lifetime_len) =~= lifetime);
}

/// A byte sequence that decodes as an announcement is exactly the
/// encoding of what it decodes to.
pub proof fn lemma_heartbeat_decode_complete(buf: Seq<u8>)
    requires
        spec_decode_heartbeat(buf) is Some,
    ensures
        ({
            let (address, flags, lifetime) = spec_decode_heartbeat(buf)->Some_0;
            buf == spec_encode_heartbeat(address, flags, lifetime)
        }),
{
    lemma_auto_spec_u64_to_from_le_bytes();
    lemma_auto_spec_u32_to_from_le_bytes();
    let (address, flags, lifetime) = spec_decode_heartbeat(buf)->Some_0;
    let address_len = spec_u64_from_le_bytes(buf.subrange(0, 8)) as int;
    assert(spec_u64_to_le_bytes(address.len() as u64) =~= buf.subrange(0, 8));
    assert(spec_u32_to_le_bytes(flags) =~= buf.subrange(8 + address_len, 12 + address_len));
    assert(spec_u64_to_le_bytes(lifetime.len() as u64) =~= buf.subrange(
        12 + address_len,
        20 + address_len,
    ));
    assert(buf =~= spec_encode_heartbeat(address, flags, lifetime));
}

/// The manager's handler: it acknowledges a heartbeat with a success
/// status and empty payloads, and fails on every operation type it has no
/// case for rather than fabricate a success.
pub struct ManagerHandler {}

impl Handler for ManagerHandler {
    open spec fn dispatch_spec(
        &self,
        operation_type: u32,
        flags: u32,
        path: Seq<u8>,
        data: Seq<u8>,
        metadata: Seq<u8>,
    ) -> Option<(i32, u32, Seq<u8>, Seq<u8>)> {
        if operation_type == OP_SEND_HEART {
            Some((0i32, 0u32, Seq::<u8>::empty(), Seq::<u8>::empty()))
        } else {
            None
        }
    }

    fn dispatch(
        &self,
        operation_type: u32,
        flags: u32,
        path: &[u8],
        data: &[u8],
        metadata: &[u8],
    ) -> (r: Result<Reply, HandlerError>) {
        if operation_type == OP_SEND_HEART {
            let reply = Reply { status: 0, flags: 0, metadata: Vec::new(), data: Vec::new() };
            proof {
                assert(reply.metadata@ =~= Seq::<u8>::empty());
                assert(reply.data@ =~= Seq::<u8>::empty());
            }
            Ok(reply)
        } else {
            Err(HandlerError::UnsupportedOperation)
        }
    }
}

/// The manager acknowledges every well-formed heartbeat request: serving
/// an encoded `OP_SEND_HEART` frame yields exactly the encoded success
/// response with empty payloads, whatever the announcement says.
pub proof fn lemma_heartbeat_acknowledged(
    flags: u32,
    path: Seq<u8>,
    data: Seq<u8>,
    metadata: Seq<u8>,
)
    requires
        crate::codec::request_fits(path, data, metadata),
    ensures
        crate::server::spec_serve_frame(
            &ManagerHandler {},
            crate::codec::spec_encode_request(OP_SEND_HEART, flags, path, data, metadata),
        ) == Some(
            crate::codec::spec_encode_response(0, 0, Seq::<u8>::empty(), Seq::<u8>::empty()),
        ),
{
    crate::codec::lemma_request_round_trip(OP_SEND_HEART, flags, path, data, metadata);
}

/// What the heartbeat loop does after one round.
#[derive(Clone, Copy, Debug, PartialEq, Eq, Structural)]
pub enum HeartbeatDirective {
    /// Wait for the next tick and announce again.
    Continue,
    /// Too many consecutive failures: escalate to the embedding process.
    GiveUp,
}

/// Decides the heartbeat loop: what each tick sends, and whether the loop
/// goes on after a round. A failed round is never terminal by itself;
/// only `max_consecutive_failures` failed rounds in a row are.
pub struct HeartbeatReporter {
    /// The manager's address, the call's destination.
    pub manager_address: Vec<u8>,
    /// This node's own address, announced in every heartbeat.
    pub server_address: Vec<u8>,
    /// The lease lifetime announced in every heartbeat.
    pub lifetime: Vec<u8>,
    /// Role flags announced in every heartbeat.
    pub flags: u32,
    /// How many consecutive failed rounds the reporter tolerates.
    pub max_consecutive_failures: u32,
    /// How many rounds have failed since the last success.
    pub consecutive_failures: u32,
}

impl HeartbeatReporter {
    /// The failure count never runs past its bound.
    pub open spec fn wf(self) -> bool {
        self.consecutive_failures <= self.max_consecutive_failures
    }

    /// A fresh reporter has seen no failure.
    pub fn new(
        manager_address: Vec<u8>,
        server_address: Vec<u8>,
        lifetime: Vec<u8>,
        flags: u32,
        max_consecutive_failures: u32,
    ) -> (r: HeartbeatReporter)
        ensures
            r.wf(),
            r.manager_address == manager_address,
            r.server_address == server_address,
            r.lifetime == lifetime,
            r.flags == flags,
            r.max_consecutive_failures == max_consecutive_failures,
            r.consecutive_failures == 0,
    {
        HeartbeatReporter {
            manager_address,
            server_address,
            lifetime,
            flags,
            max_consecutive_failures,
            consecutive_failures: 0,
        }
    }

    /// The announcement one tick sends, built fresh: this node's address,
    /// its role flags, and the configured lease lifetime.
    pub fn tick_data(&self) -> (d: Vec<u8>)
        ensures
            d@ == spec_encode_heartbeat(self.server_address@, self.flags, self.lifetime@),
    {
        encode_heartbeat(self.server_address.as_slice(), self.flags, self.lifetime.as_slice())
    }

    /// Records one round's outcome and says whether the loop goes on.
    /// A success clears the failure count; a failure raises it, and only
    /// a count that reaches the bound gives up.
    pub fn record_outcome(&mut self, succeeded: bool) -> (d: HeartbeatDirective)
        requires
            old(self).wf(),
        ensures
            final(self).wf(),
            final(self).manager_address == old(self).manager_address,
            final(self).server_address == old(self).server_address,
            final(self).lifetime == old(self).lifetime,
            final(self).flags == old(self).flags,
            final(self).max_consecutive_failures == old(self).max_consecutive_failures,
            succeeded ==> final(self).consecutive_failures == 0 && d
                == HeartbeatDirective::Continue,
            !succeeded ==> final(self).consecutive_failures == (
            if old(self).consecutive_failures < old(self).max_consecutive_failures {
                old(self).consecutive_failures + 1
            } else {
                old(self).consecutive_failures as int
            }),
            d == HeartbeatDirective::GiveUp <==> (!succeeded && final(self).consecutive_failures
                >= final(self).max_consecutive_failures),
    {
        if succeeded {
            self.consecutive_failures = 0;
            HeartbeatDirective::Continue
        } else {
            if self.consecutive_failures < self.max_consecutive_failures {
                self.consecutive_failures = self.consecutive_failures + 1;
            }
            if self.consecutive_failures >= self.max_consecutive_failures {
                HeartbeatDirective::GiveUp
            } else {
                HeartbeatDirective::Continue
            }
        }
    }
}

} // verus!
