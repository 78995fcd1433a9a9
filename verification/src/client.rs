//! Client side of a call: the pool of open connections, keyed by remote
//! address, and the delivery of a response into caller-owned buffers.
//!
//! The socket work of a call happens outside this crate. The embedding code
//! opens the socket when `add_connection` pools an address, writes the bytes
//! of `codec::encode_request`, reads a response header and its payload, and
//! hands them to `deliver_response` — or the reassembled frame to
//! `complete_call`. On any I/O failure it calls
//! `remove_connection`, so that the next call to the same address opens a
//! fresh connection: the pool self-heals (`lemma_pool_self_heals`).
//!
//! A connection carries one call at a time: the embedding code holds the
//! connection exclusively from the request's first byte to the response's
//! last, so no frame needs a call-correlation identifier and interleaved
//! callers never observe each other's response.

use vstd::prelude::*;
use vstd::seq_lib::lemma_seq_contains_after_push;
use vstd::slice::slice_to_vec;
use crate::codec::{decode_response, spec_decode_response, ResponseHeader, MAX_SEGMENT_LEN};

verus! {

/// Why a call failed. The transport never interprets a nonzero response
/// status: that is an application error, reported inside a successful call.
#[derive(Clone, Copy, Debug, PartialEq, Eq, Structural)]
pub enum RpcError {
    /// No connection to the address could be established.
    AddressUnreachable,
    /// The connection failed mid-call; the caller must evict it.
    ConnectionBroken,
    /// The response frame did not parse.
    MalformedResponse,
    /// A caller-supplied output buffer is shorter than the response's
    /// declared segment length.
    BufferTooSmall,
    /// A request segment is longer than `MAX_SEGMENT_LEN`.
    SegmentTooLong,
}

/// Compares two byte strings by value.
fn bytes_eq(a: &[u8], b: &[u8]) -> (r: bool)
    ensures
        r == (a@ == b@),
{
    if a.len() != b.len() {
        proof {
            assert(a@ != b@);
        }
        return false;
    }
    let mut i: usize = 0;
    while i < a.len()
        invariant
            i <= a@.len(),
            a@.len() == b@.len(),
            forall|j: int| 0 <= j < i ==> a@[j] == b@[j],
        decreases a@.len() - i,
    {
        if a[i] != b[i] {
            return false;
        }
        i = i + 1;
    }
    proof {
        assert(a@ =~= b@);
    }
    true
}

/// `after` is `before` with `address` evicted and nothing else changed.
pub open spec fn pool_evicts(before: Seq<Seq<u8>>, after: Seq<Seq<u8>>, address: Seq<u8>) -> bool {
    forall|a: Seq<u8>| after.contains(a) <==> (before.contains(a) && a != address)
}

/// `after` is `before` with `address` pooled and nothing else changed.
pub open spec fn pool_adds(before: Seq<Seq<u8>>, after: Seq<Seq<u8>>, address: Seq<u8>) -> bool {
    forall|a: Seq<u8>| after.contains(a) <==> (before.contains(a) || a == address)
}

/// A client: the pool of remote addresses it holds an open connection to.
/// Entries are unique per address.
pub struct Client {
    pool: Vec<Vec<u8>>,
}

impl Client {
    /// The addresses currently pooled.
    pub closed spec fn addresses(self) -> Seq<Seq<u8>> {
        self.pool@.map_values(|v: Vec<u8>| v@)
    }

    /// No address is pooled twice.
    pub open spec fn wf(self) -> bool {
        forall|i: int, j: int|
            0 <= i < j < self.addresses().len() ==> self.addresses()[i] != self.addresses()[j]
    }

    /// A fresh client pools nothing.
    pub fn new() -> (c: Client)
        ensures
            c.wf(),
            c.addresses() == Seq::<Seq<u8>>::empty(),
    {
        let c = Client { pool: Vec::new() };
        proof {
            assert(c.addresses() =~= Seq::<Seq<u8>>::empty());
        }
        c
    }

    /// The position of `address` in the pool, if it is pooled.
    fn find(&self, address: &[u8]) -> (r: Option<usize>)
        ensures
            match r {
                Some(i) => i < self.addresses().len() && self.addresses()[i as int] == address@,
                None => !self.addresses().contains(address@),
            },
    {
        let mut i: usize = 0;
        while i < self.pool.len()
            invariant
                i <= self.pool@.len(),
                forall|j: int| 0 <= j < i ==> self.addresses()[j] != address@,
            decreases self.pool@.len() - i,
        {
            if bytes_eq(self.pool[i].as_slice(), address) {
                return Some(i);
            }
            i = i + 1;
        }
        proof {
            assert forall|j: int| 0 <= j < self.addresses().len() implies self.addresses()[j]
                != address@ by {}
            assert(!self.addresses().contains(address@));
        }
        None
    }

    /// Whether a connection to `address` is pooled.
    pub fn has_connection(&self, address: &[u8]) -> (r: bool)
        ensures
            r == self.addresses().contains(address@),
    {
        match self.find(address) {
            Some(_) => {
                proof {
                    assert(self.addresses().contains(address@));
                }
                true
            },
            None => false,
        }
    }

    /// Pools `address`. Idempotent: pooling an address a second time
    /// changes nothing, and no other entry is touched either way.
    /// The embedding code opens the one socket this entry stands for.
    pub fn add_connection(&mut self, address: &[u8])
        requires
            old(self).wf(),
        ensures
            final(self).wf(),
            pool_adds(old(self).addresses(), final(self).addresses(), address@),
            old(self).addresses().contains(address@) ==> *final(self) == *old(self),
    {
        broadcast use lemma_seq_contains_after_push;

        match self.find(address) {
            Some(_) => {
                proof {
                    assert(self.addresses().contains(address@));
                    assert(pool_adds(self.addresses(), self.addresses(), address@));
                }
            },
            None => {
                let ghost s0 = self.addresses();
                let entry = slice_to_vec(address);
                self.pool.push(entry);
                proof {
                    let s1 = self.addresses();
                    assert(s1 =~= s0.push(address@));
                    assert forall|i: int| 0 <= i < s0.len() implies s0[i] != address@ by {
                        if s0[i] == address@ {
                            assert(s0.contains(address@));
                        }
                    }
                    assert forall|i: int, j: int| 0 <= i < j < s1.len() implies s1[i]
                        != s1[j] by {
                        if j < s0.len() {
                            assert(s1[i] == s0[i] && s1[j] == s0[j]);
                        } else {
                            assert(s1[j] == address@ && s1[i] == s0[i]);
                        }
                    }
                    assert(self.wf());
                }
            },
        }
    }

    /// Evicts `address` from the pool, if pooled; no other entry is
    /// touched. The embedding code calls this on any I/O failure of the
    /// connection, and closes the socket the entry stood for.
    pub fn remove_connection(&mut self, address: &[u8])
        requires
            old(self).wf(),
        ensures
            final(self).wf(),
            pool_evicts(old(self).addresses(), final(self).addresses(), address@),
            !old(self).addresses().contains(address@) ==> *final(self) == *old(self),
    {
        match self.find(address) {
            Some(i) => {
                let ghost s0 = self.addresses();
                let ghost idx = i as int;
                self.pool.remove(i);
                proof {
                    let s1 = self.addresses();
                    assert(s1 =~= s0.remove(idx));
                    assert(forall|j: int| 0 <= j < idx ==> s1[j] == s0[j]);
                    assert(forall|j: int| idx <= j < s1.len() ==> s1[j] == s0[j + 1]);
                    assert forall|a: Seq<u8>| s1.contains(a) <==> (s0.contains(a) && a
                        != address@) by {
                        if s1.contains(a) {
                            let j = choose|j: int| 0 <= j < s1.len() && s1[j] == a;
                            if j < idx {
                                assert(s0[j] == a);
                                assert(s0.contains(a));
                                assert(a != address@);
                            } else {
                                assert(s0[j + 1] == a);
                                assert(s0.contains(a));
                                assert(a != address@);
                            }
                        }
                        if s0.contains(a) && a != address@ {
                            let j = choose|j: int| 0 <= j < s0.len() && s0[j] == a;
                            if j < idx {
                                assert(s1[j] == a);
                                assert(s1.contains(a));
                            } else {
                                assert(j != idx);
                                assert(s1[j - 1] == a);
                                assert(s1.contains(a));
                            }
                        }
                    }
                }
            },
            None => {
                proof {
                    assert(pool_evicts(self.addresses(), self.addresses(), address@));
                }
            },
        }
    }
}

/// After an eviction, re-pooling the same address restores it, and no
/// other address's membership ever moved: the pool self-heals without
/// manual intervention.
pub proof fn lemma_pool_self_heals(
    s0: Seq<Seq<u8>>,
    s1: Seq<Seq<u8>>,
    s2: Seq<Seq<u8>>,
    address: Seq<u8>,
)
    requires
        pool_evicts(s0, s1, address),
        pool_adds(s1, s2, address),
    ensures
        s2.contains(address),
        forall|a: Seq<u8>| a != address ==> (s2.contains(a) <==> s0.contains(a)),
{
}

/// Copies `count` bytes of `src`, starting at `src_start`, onto the front
/// of `dst`; the rest of `dst` and its length are untouched.
fn copy_into(dst: &mut Vec<u8>, src: &[u8], src_start: usize, count: usize)
    requires
        src_start + count <= src@.len(),
        count <= old(dst)@.len(),
    ensures
        final(dst)@ == src@.subrange(src_start as int, src_start + count) + old(dst)@.skip(
            count as int,
        ),
{
    let ghost dst0 = dst@;
    let src_len = src.len();
    let mut i: usize = 0;
    while i < count
        invariant
            i <= count,
            count <= dst0.len(),
            src_len == src@.len(),
            src_start + count <= src@.len(),
            dst@.len() == dst0.len(),
            forall|j: int| 0 <= j < i ==> dst@[j] == src@[src_start + j],
            forall|j: int| i <= j < dst0.len() ==> dst@[j] == dst0[j],
        decreases count - i,
    {
        let b = src[src_start + i];
        dst.set(i, b);
        i = i + 1;
    }
    proof {
        assert(dst@ =~= src@.subrange(src_start as int, src_start + count) + dst0.skip(
            count as int,
        ));
    }
}

/// Delivers a response into the caller's output buffers. Fails with
/// `BufferTooSmall`, touching neither buffer, exactly when a buffer is
/// shorter than the declared segment length; on success the declared
/// number of bytes is copied onto the front of each buffer, the buffers
/// keep their lengths, and the returned lengths report what was written.
pub fn deliver_response(
    header: &ResponseHeader,
    payload: &[u8],
    out_metadata: &mut Vec<u8>,
    out_data: &mut Vec<u8>,
) -> (r: Result<(i32, u32, usize, usize), RpcError>)
    requires
        header.metadata_len <= MAX_SEGMENT_LEN,
        header.data_len <= MAX_SEGMENT_LEN,
        payload@.len() == header.metadata_len + header.data_len,
    ensures
        match r {
            Ok(out) => {
                let (status, flags, metadata_len, data_len) = out;
                &&& header.metadata_len <= old(out_metadata)@.len()
                &&& header.data_len <= old(out_data)@.len()
                &&& status == header.status
                &&& flags == header.flags
                &&& metadata_len == header.metadata_len
                &&& data_len == header.data_len
                &&& final(out_metadata)@ == payload@.subrange(0, metadata_len as int) + old(
                    out_metadata,
                )@.skip(metadata_len as int)
                &&& final(out_data)@ == payload@.subrange(
                    metadata_len as int,
                    payload@.len() as int,
                ) + old(out_data)@.skip(data_len as int)
            },
            Err(e) => {
                &&& e == RpcError::BufferTooSmall
                &&& (header.metadata_len > old(out_metadata)@.len() || header.data_len > old(
                    out_data,
                )@.len())
                &&& *final(out_metadata) == *old(out_metadata)
                &&& *final(out_data) == *old(out_data)
            },
        },
{
    let metadata_len = header.metadata_len as usize;
    let data_len = header.data_len as usize;
    if metadata_len > out_metadata.len() || data_len > out_data.len() {
        return Err(RpcError::BufferTooSmall);
    }
    copy_into(out_metadata, payload, 0, metadata_len);
    copy_into(out_data, payload, metadata_len, data_len);
    Ok((header.status, header.flags, metadata_len, data_len))
}

/// The response decodes, but a caller buffer is shorter than a declared
/// segment length.
pub open spec fn spec_buffers_too_small(
    response: Seq<u8>,
    metadata_capacity: nat,
    data_capacity: nat,
) -> bool {
    spec_decode_response(response) matches Ok((status, flags, metadata, data)) && (metadata.len()
        > metadata_capacity || data.len() > data_capacity)
}

/// Completes one call from the response frame the connection carried:
/// decodes it and delivers its payload into the caller's buffers. On
/// success the header fields come back with the delivered lengths; each
/// failure names its cause exactly, and no failure writes into a buffer.
pub fn complete_call(response: &[u8], out_metadata: &mut Vec<u8>, out_data: &mut Vec<u8>) -> (r:
    Result<(i32, u32, usize, usize), RpcError>)
    ensures
        match r {
            Ok(out) => {
                let (status, flags, metadata_len, data_len) = out;
                &&& spec_decode_response(response@) is Ok
                &&& ({
                    let (s, f, metadata, data) = spec_decode_response(response@)->Ok_0;
                    &&& status == s
                    &&& flags == f
                    &&& metadata_len == metadata.len()
                    &&& data_len == data.len()
                    &&& metadata_len <= old(out_metadata)@.len()
                    &&& data_len <= old(out_data)@.len()
                    &&& final(out_metadata)@ == metadata + old(out_metadata)@.skip(
                        metadata_len as int,
                    )
                    &&& final(out_data)@ == data + old(out_data)@.skip(data_len as int)
                })
            },
            Err(e) => {
                &&& *final(out_metadata) == *old(out_metadata)
                &&& *final(out_data) == *old(out_data)
                &&& (e == RpcError::MalformedResponse <==> spec_decode_response(response@) is Err)
                &&& (e == RpcError::BufferTooSmall <==> spec_buffers_too_small(
                    response@,
                    old(out_metadata)@.len(),
                    old(out_data)@.len(),
                ))
                &&& (e == RpcError::MalformedResponse || e == RpcError::BufferTooSmall)
            },
        },
{
    let frame = match decode_response(response) {
        Ok(frame) => frame,
        Err(_) => {
            return Err(RpcError::MalformedResponse);
        },
    };
    let metadata_len = frame.metadata.len();
    let data_len = frame.data.len();
    if metadata_len > out_metadata.len() || data_len > out_data.len() {
        return Err(RpcError::BufferTooSmall);
    }
    copy_into(out_metadata, frame.metadata.as_slice(), 0, metadata_len);
    copy_into(out_data, frame.data.as_slice(), 0, data_len);
    proof {
        let (s, f, metadata, data) = spec_decode_response(response@)->Ok_0;
        assert(metadata + old(out_metadata)@.skip(metadata_len as int) =~= metadata.subrange(
            0,
            metadata_len as int,
        ) + old(out_metadata)@.skip(metadata_len as int));
        assert(data + old(out_data)@.skip(data_len as int) =~= data.subrange(0, data_len as int)
            + old(out_data)@.skip(data_len as int));
    }
    Ok((frame.status, frame.flags, metadata_len, data_len))
}

} // verus!
