//! Wire frame codec: the byte layout of one request and one response frame.
//!
//! A request frame is a 20-byte header — operation type, flags, and the three
//! segment lengths, each a little-endian `u32` — followed by the path, data
//! and metadata bytes. A response frame is a 16-byte header — status, flags,
//! metadata length and data length — followed by the metadata and data bytes.
//! Every frame is self-delimiting: a reader that has the header knows exactly
//! how many payload bytes follow.

use vstd::prelude::*;
use vstd::bytes::{
    lemma_auto_spec_u32_to_from_le_bytes, spec_u32_from_le_bytes, spec_u32_to_le_bytes,
    u32_from_le_bytes, u32_to_le_bytes,
};
use vstd::slice::{slice_subrange, slice_to_vec};

verus! {

/// Maximum accepted length, in bytes, of any one variable-length frame
/// segment (path, data or metadata). A decoder rejects a declared length
/// above this bound as implausible rather than allocating for it.
pub const MAX_SEGMENT_LEN: u32 = 0x0100_0000;

/// Byte length of the fixed request header: operation type, flags,
/// path length, data length, metadata length.
pub const REQUEST_HEADER_LEN: usize = 20;

/// Byte length of the fixed response header: status, flags,
/// metadata length, data length.
pub const RESPONSE_HEADER_LEN: usize = 16;

/// A segment fits on the wire: its length is within `MAX_SEGMENT_LEN`.
pub open spec fn segment_fits(s: Seq<u8>) -> bool {
    s.len() <= MAX_SEGMENT_LEN
}

/// All three variable segments of a request fit on the wire.
pub open spec fn request_fits(path: Seq<u8>, data: Seq<u8>, metadata: Seq<u8>) -> bool {
    segment_fits(path) && segment_fits(data) && segment_fits(metadata)
}

/// Both variable segments of a response fit on the wire.
pub open spec fn response_fits(metadata: Seq<u8>, data: Seq<u8>) -> bool {
    segment_fits(metadata) && segment_fits(data)
}

/// Why a frame was refused by a decoder or an encoder.
#[derive(Clone, Copy, Debug, PartialEq, Eq, Structural)]
pub enum FrameError {
    /// A declared or offered segment length exceeds `MAX_SEGMENT_LEN`.
    SegmentTooLong,
    /// The byte sequence ends before one complete frame, or runs past it.
    Truncated,
}

/// One decoded request frame.
#[derive(Debug)]
pub struct RequestFrame {
    pub operation_type: u32,
    pub flags: u32,
    pub path: Vec<u8>,
    pub data: Vec<u8>,
    pub metadata: Vec<u8>,
}

/// The byte layout of a request frame.
pub open spec fn spec_encode_request(
    operation_type: u32,
    flags: u32,
    path: Seq<u8>,
    data: Seq<u8>,
    metadata: Seq<u8>,
) -> Seq<u8> {
    spec_u32_to_le_bytes(operation_type) + spec_u32_to_le_bytes(flags)
        + spec_u32_to_le_bytes(path.len() as u32) + spec_u32_to_le_bytes(data.len() as u32)
        + spec_u32_to_le_bytes(metadata.len() as u32) + path + data + metadata
}

/// The one way a byte sequence parses as a request frame, or the reason
/// it does not.
pub open spec fn spec_decode_request(buf: Seq<u8>) -> Result<
    (u32, u32, Seq<u8>, Seq<u8>, Seq<u8>),
    FrameError,
> {
    if buf.len() < REQUEST_HEADER_LEN {
        Err(FrameError::Truncated)
    } else {
        let operation_type = spec_u32_from_le_bytes(buf.subrange(0, 4));
        let flags = spec_u32_from_le_bytes(buf.subrange(4, 8));
        let path_len = spec_u32_from_le_bytes(buf.subrange(8, 12)) as int;
        let data_len = spec_u32_from_le_bytes(buf.subrange(12, 16)) as int;
        let metadata_len = spec_u32_from_le_bytes(buf.subrange(16, 20)) as int;
        if path_len > MAX_SEGMENT_LEN || data_len > MAX_SEGMENT_LEN
            || metadata_len > MAX_SEGMENT_LEN {
            Err(FrameError::SegmentTooLong)
        } else if buf.len() != REQUEST_HEADER_LEN + path_len + data_len + metadata_len {
            Err(FrameError::Truncated)
        } else {
            let path_end = REQUEST_HEADER_LEN + path_len;
            let data_end = path_end + data_len;
            let metadata_end = data_end + metadata_len;
            Ok(
                (
                    operation_type,
                    flags,
                    buf.subrange(REQUEST_HEADER_LEN as int, path_end),
                    buf.subrange(path_end, data_end),
                    buf.subrange(data_end, metadata_end),
                ),
            )
        }
    }
}

/// Appends every byte of `src` to `dst`, in order.
pub(crate) fn push_bytes(dst: &mut Vec<u8>, src: &[u8])
    ensures
        final(dst)@ == old(dst)@ + src@,
{
    let ghost dst0 = dst@;
    let mut i: usize = 0;
    while i < src.len()
        invariant
            i <= src@.len(),
            dst@ == dst0 + src@.subrange(0, i as int),
        decreases src@.len() - i,
    {
        let b = src[i];
        dst.push(b);
        proof {
            assert(src@.subrange(0, i + 1) =~= src@.subrange(0, i as int).push(src@[i as int]));
            assert(dst@ =~= dst0 + src@.subrange(0, i + 1));
        }
        i = i + 1;
    }
    proof {
        assert(src@.subrange(0, src@.len() as int) =~= src@);
    }
}

/// Encodes one request frame. Fails exactly when some segment is longer
/// than `MAX_SEGMENT_LEN`, so that its length field would be implausible
/// to every decoder.
pub fn encode_request(
    operation_type: u32,
    flags: u32,
    path: &[u8],
    data: &[u8],
    metadata: &[u8],
) -> (r: Result<Vec<u8>, FrameError>)
    ensures
        match r {
            Ok(buf) => request_fits(path@, data@, metadata@) && buf@ == spec_encode_request(
                operation_type,
                flags,
                path@,
                data@,
                metadata@,
            ),
            Err(e) => e == FrameError::SegmentTooLong && !request_fits(path@, data@, metadata@),
        },
{
    let max = MAX_SEGMENT_LEN as usize;
    if path.len() > max || data.len() > max || metadata.len() > max {
        return Err(FrameError::SegmentTooLong);
    }
    let mut buf = u32_to_le_bytes(operation_type);
    let mut field = u32_to_le_bytes(flags);
    buf.append(&mut field);
    let mut field = u32_to_le_bytes(path.len() as u32);
    buf.append(&mut field);
    let mut field = u32_to_le_bytes(data.len() as u32);
    buf.append(&mut field);
    let mut field = u32_to_le_bytes(metadata.len() as u32);
    buf.append(&mut field);
    push_bytes(&mut buf, path);
    push_bytes(&mut buf, data);
    push_bytes(&mut buf, metadata);
    proof {
        assert(buf@ =~= spec_encode_request(operation_type, flags, path@, data@, metadata@));
    }
    Ok(buf)
}

/// Decodes one complete request frame from `buf`, which must hold exactly
/// one frame; the result is exactly what `spec_decode_request` says.
pub fn decode_request(buf: &[u8]) -> (r: Result<RequestFrame, FrameError>)
    ensures
        match r {
            Ok(f) => spec_decode_request(buf@) == Ok::<
                (u32, u32, Seq<u8>, Seq<u8>, Seq<u8>),
                FrameError,
            >((f.operation_type, f.flags, f.path@, f.data@, f.metadata@)),
            Err(e) => spec_decode_request(buf@) == Err::<
                (u32, u32, Seq<u8>, Seq<u8>, Seq<u8>),
                FrameError,
            >(e),
        },
{
    if buf.len() < REQUEST_HEADER_LEN {
        return Err(FrameError::Truncated);
    }
    let operation_type = u32_from_le_bytes(slice_subrange(buf, 0, 4));
    let flags = u32_from_le_bytes(slice_subrange(buf, 4, 8));
    let path_len = u32_from_le_bytes(slice_subrange(buf, 8, 12));
    let data_len = u32_from_le_bytes(slice_subrange(buf, 12, 16));
    let metadata_len = u32_from_le_bytes(slice_subrange(buf, 16, 20));
    if path_len > MAX_SEGMENT_LEN || data_len > MAX_SEGMENT_LEN
        || metadata_len > MAX_SEGMENT_LEN {
        return Err(FrameError::SegmentTooLong);
    }
    let path_end = REQUEST_HEADER_LEN + path_len as usize;
    let data_end = path_end + data_len as usize;
    let metadata_end = data_end + metadata_len as usize;
    if buf.len() != metadata_end {
        return Err(FrameError::Truncated);
    }
    let path = slice_to_vec(slice_subrange(buf, REQUEST_HEADER_LEN, path_end));
    let data = slice_to_vec(slice_subrange(buf, path_end, data_end));
    let metadata = slice_to_vec(slice_subrange(buf, data_end, metadata_end));
    Ok(RequestFrame { operation_type, flags, path, data, metadata })
}

/// Encoding then decoding a request that fits reproduces it exactly:
/// the codec is lossless for every frame the encoder accepts.
pub proof fn lemma_request_round_trip(
    operation_type: u32,
    flags: u32,
    path: Seq<u8>,
    data: Seq<u8>,
    metadata: Seq<u8>,
)
    requires
        request_fits(path, data, metadata),
    ensures
        spec_decode_request(spec_encode_request(operation_type, flags, path, data, metadata))
            == Ok::<(u32, u32, Seq<u8>, Seq<u8>, Seq<u8>), FrameError>(
            (operation_type, flags, path, data, metadata),
        ),
{
    lemma_auto_spec_u32_to_from_le_bytes();
    let buf = spec_encode_request(operation_type, flags, path, data, metadata);
    assert(buf.subrange(0, 4) =~= spec_u32_to_le_bytes(operation_type));
    assert(buf.subrange(4, 8) =~= spec_u32_to_le_bytes(flags));
    assert(buf.subrange(8, 12) =~= spec_u32_to_le_bytes(path.len() as u32));
    assert(buf.subrange(12, 16) =~= spec_u32_to_le_bytes(data.len() as u32));
    assert(buf.subrange(16, 20) =~= spec_u32_to_le_bytes(metadata.len() as u32));
    let path_end = REQUEST_HEADER_LEN + path.len() as int;
    let data_end = path_end + data.len() as int;
    let metadata_end = data_end + metadata.len() as int;
    assert(buf.subrange(REQUEST_HEADER_LEN as int, path_end) =~= path);
    assert(buf.subrange(path_end, data_end) =~= data);
    assert(buf.subrange(data_end, metadata_end) =~= metadata);
}

/// A byte sequence that decodes as a request is exactly the encoding of
/// what it decodes to: no two distinct frames share a byte sequence, and
/// no decoder output lies outside the encoder's range.
pub proof fn lemma_request_decode_complete(buf: Seq<u8>)
    requires
        spec_decode_request(buf) is Ok,
    ensures
        ({
            let (operation_type, flags, path, data, metadata) = spec_decode_request(buf)->Ok_0;
            request_fits(path, data, metadata) && buf == spec_encode_request(
                operation_type,
                flags,
                path,
                data,
                metadata,
            )
        }),
{
    lemma_auto_spec_u32_to_from_le_bytes();
    let (operation_type, flags, path, data, metadata) = spec_decode_request(buf)->Ok_0;
    assert(spec_u32_to_le_bytes(operation_type) =~= buf.subrange(0, 4));
    assert(spec_u32_to_le_bytes(flags) =~= buf.subrange(4, 8));
    assert(spec_u32_to_le_bytes(path.len() as u32) =~= buf.subrange(8, 12));
    assert(spec_u32_to_le_bytes(data.len() as u32) =~= buf.subrange(12, 16));
    assert(spec_u32_to_le_bytes(metadata.len() as u32) =~= buf.subrange(16, 20));
    assert(buf =~= spec_encode_request(operation_type, flags, path, data, metadata));
}

/// One decoded response frame.
#[derive(Debug)]
pub struct ResponseFrame {
    pub status: i32,
    pub flags: u32,
    pub metadata: Vec<u8>,
    pub data: Vec<u8>,
}

/// The fixed request header, parsed ahead of its payload so that a reader
/// knows how many payload bytes follow.
#[derive(Clone, Copy, Debug, PartialEq, Eq, Structural)]
pub struct RequestHeader {
    pub operation_type: u32,
    pub flags: u32,
    pub path_len: u32,
    pub data_len: u32,
    pub metadata_len: u32,
}

/// The fixed response header, parsed ahead of its payload.
#[derive(Clone, Copy, Debug, PartialEq, Eq, Structural)]
pub struct ResponseHeader {
    pub status: i32,
    pub flags: u32,
    pub metadata_len: u32,
    pub data_len: u32,
}

/// The byte layout of a response frame. The status travels as the two's
/// complement bits of the `i32`, in a little-endian `u32` field.
pub open spec fn spec_encode_response(
    status: i32,
    flags: u32,
    metadata: Seq<u8>,
    data: Seq<u8>,
) -> Seq<u8> {
    spec_u32_to_le_bytes(status as u32) + spec_u32_to_le_bytes(flags)
        + spec_u32_to_le_bytes(metadata.len() as u32) + spec_u32_to_le_bytes(data.len() as u32)
        + metadata + data
}

/// The one way a byte sequence parses as a response frame, or the reason
/// it does not.
pub open spec fn spec_decode_response(buf: Seq<u8>) -> Result<
    (i32, u32, Seq<u8>, Seq<u8>),
    FrameError,
> {
    if buf.len() < RESPONSE_HEADER_LEN {
        Err(FrameError::Truncated)
    } else {
        let status = spec_u32_from_le_bytes(buf.subrange(0, 4)) as i32;
        let flags = spec_u32_from_le_bytes(buf.subrange(4, 8));
        let metadata_len = spec_u32_from_le_bytes(buf.subrange(8, 12)) as int;
        let data_len = spec_u32_from_le_bytes(buf.subrange(12, 16)) as int;
        if metadata_len > MAX_SEGMENT_LEN || data_len > MAX_SEGMENT_LEN {
            Err(FrameError::SegmentTooLong)
        } else if buf.len() != RESPONSE_HEADER_LEN + metadata_len + data_len {
            Err(FrameError::Truncated)
        } else {
            let metadata_end = RESPONSE_HEADER_LEN + metadata_len;
            let data_end = metadata_end + data_len;
            Ok(
                (
                    status,
                    flags,
                    buf.subrange(RESPONSE_HEADER_LEN as int, metadata_end),
                    buf.subrange(metadata_end, data_end),
                ),
            )
        }
    }
}

/// A round trip through the two's complement bits of an `i32` loses nothing.
proof fn lemma_i32_bits_round_trip(x: i32)
    ensures
        ((x as u32) as i32) == x,
{
    assert(((x as u32) as i32) == x) by (bit_vector);
}

/// Encodes one response frame. Fails exactly when some segment is longer
/// than `MAX_SEGMENT_LEN`.
pub fn encode_response(status: i32, flags: u32, metadata: &[u8], data: &[u8]) -> (r: Result<
    Vec<u8>,
    FrameError,
>)
    ensures
        match r {
            Ok(buf) => response_fits(metadata@, data@) && buf@ == spec_encode_response(
                status,
                flags,
                metadata@,
                data@,
            ),
            Err(e) => e == FrameError::SegmentTooLong && !response_fits(metadata@, data@),
        },
{
    let max = MAX_SEGMENT_LEN as usize;
    if metadata.len() > max || data.len() > max {
        return Err(FrameError::SegmentTooLong);
    }
    let status_bits = #[verifier::truncate] (status as u32);
    let mut buf = u32_to_le_bytes(status_bits);
    let mut field = u32_to_le_bytes(flags);
    buf.append(&mut field);
    let mut field = u32_to_le_bytes(metadata.len() as u32);
    buf.append(&mut field);
    let mut field = u32_to_le_bytes(data.len() as u32);
    buf.append(&mut field);
    push_bytes(&mut buf, metadata);
    push_bytes(&mut buf, data);
    proof {
        assert(buf@ =~= spec_encode_response(status, flags, metadata@, data@));
    }
    Ok(buf)
}

/// Decodes one complete response frame from `buf`; the result is exactly
/// what `spec_decode_response` says.
pub fn decode_response(buf: &[u8]) -> (r: Result<ResponseFrame, FrameError>)
    ensures
        match r {
            Ok(f) => spec_decode_response(buf@) == Ok::<(i32, u32, Seq<u8>, Seq<u8>), FrameError>(
                (f.status, f.flags, f.metadata@, f.data@),
            ),
            Err(e) => spec_decode_response(buf@) == Err::<(i32, u32, Seq<u8>, Seq<u8>), FrameError>(
                e,
            ),
        },
{
    if buf.len() < RESPONSE_HEADER_LEN {
        return Err(FrameError::Truncated);
    }
    let status_bits = u32_from_le_bytes(slice_subrange(buf, 0, 4));
    let status = #[verifier::truncate] (status_bits as i32);
    let flags = u32_from_le_bytes(slice_subrange(buf, 4, 8));
    let metadata_len = u32_from_le_bytes(slice_subrange(buf, 8, 12));
    let data_len = u32_from_le_bytes(slice_subrange(buf, 12, 16));
    if metadata_len > MAX_SEGMENT_LEN || data_len > MAX_SEGMENT_LEN {
        return Err(FrameError::SegmentTooLong);
    }
    let metadata_end = RESPONSE_HEADER_LEN + metadata_len as usize;
    let data_end = metadata_end + data_len as usize;
    if buf.len() != data_end {
        return Err(FrameError::Truncated);
    }
    let metadata = slice_to_vec(slice_subrange(buf, RESPONSE_HEADER_LEN, metadata_end));
    let data = slice_to_vec(slice_subrange(buf, metadata_end, data_end));
    Ok(ResponseFrame { status, flags, metadata, data })
}

/// Encoding then decoding a response that fits reproduces it exactly.
pub proof fn lemma_response_round_trip(status: i32, flags: u32, metadata: Seq<u8>, data: Seq<u8>)
    requires
        response_fits(metadata, data),
    ensures
        spec_decode_response(spec_encode_response(status, flags, metadata, data)) == Ok::<
            (i32, u32, Seq<u8>, Seq<u8>),
            FrameError,
        >((status, flags, metadata, data)),
{
    lemma_auto_spec_u32_to_from_le_bytes();
    lemma_i32_bits_round_trip(status);
    let buf = spec_encode_response(status, flags, metadata, data);
    assert(buf.subrange(0, 4) =~= spec_u32_to_le_bytes(status as u32));
    assert(buf.subrange(4, 8) =~= spec_u32_to_le_bytes(flags));
    assert(buf.subrange(8, 12) =~= spec_u32_to_le_bytes(metadata.len() as u32));
    assert(buf.subrange(12, 16) =~= spec_u32_to_le_bytes(data.len() as u32));
    let metadata_end = RESPONSE_HEADER_LEN + metadata.len() as int;
    let data_end = metadata_end + data.len() as int;
    assert(buf.subrange(RESPONSE_HEADER_LEN as int, metadata_end) =~= metadata);
    assert(buf.subrange(metadata_end, data_end) =~= data);
}

/// A byte sequence that decodes as a response is exactly the encoding of
/// what it decodes to.
pub proof fn lemma_response_decode_complete(buf: Seq<u8>)
    requires
        spec_decode_response(buf) is Ok,
    ensures
        ({
            let (status, flags, metadata, data) = spec_decode_response(buf)->Ok_0;
            response_fits(metadata, data) && buf == spec_encode_response(
                status,
                flags,
                metadata,
                data,
            )
        }),
{
    lemma_auto_spec_u32_to_from_le_bytes();
    let (status, flags, metadata, data) = spec_decode_response(buf)->Ok_0;
    let status_bits = spec_u32_from_le_bytes(buf.subrange(0, 4));
    assert(((status_bits as i32) as u32) == status_bits) by (bit_vector);
    assert(spec_u32_to_le_bytes(status as u32) =~= buf.subrange(0, 4));
    assert(spec_u32_to_le_bytes(flags) =~= buf.subrange(4, 8));
    assert(spec_u32_to_le_bytes(metadata.len() as u32) =~= buf.subrange(8, 12));
    assert(spec_u32_to_le_bytes(data.len() as u32) =~= buf.subrange(12, 16));
    assert(buf =~= spec_encode_response(status, flags, metadata, data));
}

/// Parses the fixed request header. A reader hands it exactly
/// `REQUEST_HEADER_LEN` bytes and learns how many payload bytes follow;
/// a declared segment length above `MAX_SEGMENT_LEN` is refused here,
/// before any payload is read.
pub fn parse_request_header(hdr: &[u8]) -> (r: Result<RequestHeader, FrameError>)
    requires
        hdr@.len() == REQUEST_HEADER_LEN,
    ensures
        match r {
            Ok(h) => {
                &&& h.operation_type == spec_u32_from_le_bytes(hdr@.subrange(0, 4))
                &&& h.flags == spec_u32_from_le_bytes(hdr@.subrange(4, 8))
                &&& h.path_len == spec_u32_from_le_bytes(hdr@.subrange(8, 12))
                &&& h.data_len == spec_u32_from_le_bytes(hdr@.subrange(12, 16))
                &&& h.metadata_len == spec_u32_from_le_bytes(hdr@.subrange(16, 20))
                &&& h.path_len <= MAX_SEGMENT_LEN
                &&& h.data_len <= MAX_SEGMENT_LEN
                &&& h.metadata_len <= MAX_SEGMENT_LEN
            },
            Err(e) => e == FrameError::SegmentTooLong && (spec_u32_from_le_bytes(
                hdr@.subrange(8, 12),
            ) > MAX_SEGMENT_LEN || spec_u32_from_le_bytes(hdr@.subrange(12, 16)) > MAX_SEGMENT_LEN
                || spec_u32_from_le_bytes(hdr@.subrange(16, 20)) > MAX_SEGMENT_LEN),
        },
{
    let operation_type = u32_from_le_bytes(slice_subrange(hdr, 0, 4));
    let flags = u32_from_le_bytes(slice_subrange(hdr, 4, 8));
    let path_len = u32_from_le_bytes(slice_subrange(hdr, 8, 12));
    let data_len = u32_from_le_bytes(slice_subrange(hdr, 12, 16));
    let metadata_len = u32_from_le_bytes(slice_subrange(hdr, 16, 20));
    if path_len > MAX_SEGMENT_LEN || data_len > MAX_SEGMENT_LEN
        || metadata_len > MAX_SEGMENT_LEN {
        return Err(FrameError::SegmentTooLong);
    }
    Ok(RequestHeader { operation_type, flags, path_len, data_len, metadata_len })
}

/// Parses the fixed response header, refusing an implausible declared
/// length before any payload is read.
pub fn parse_response_header(hdr: &[u8]) -> (r: Result<ResponseHeader, FrameError>)
    requires
        hdr@.len() == RESPONSE_HEADER_LEN,
    ensures
        match r {
            Ok(h) => {
                &&& h.status == spec_u32_from_le_bytes(hdr@.subrange(0, 4)) as i32
                &&& h.flags == spec_u32_from_le_bytes(hdr@.subrange(4, 8))
                &&& h.metadata_len == spec_u32_from_le_bytes(hdr@.subrange(8, 12))
                &&& h.data_len == spec_u32_from_le_bytes(hdr@.subrange(12, 16))
                &&& h.metadata_len <= MAX_SEGMENT_LEN
                &&& h.data_len <= MAX_SEGMENT_LEN
            },
            Err(e) => e == FrameError::SegmentTooLong && (spec_u32_from_le_bytes(
                hdr@.subrange(8, 12),
            ) > MAX_SEGMENT_LEN || spec_u32_from_le_bytes(hdr@.subrange(12, 16))
                > MAX_SEGMENT_LEN),
        },
{
    let status_bits = u32_from_le_bytes(slice_subrange(hdr, 0, 4));
    let status = #[verifier::truncate] (status_bits as i32);
    let flags = u32_from_le_bytes(slice_subrange(hdr, 4, 8));
    let metadata_len = u32_from_le_bytes(slice_subrange(hdr, 8, 12));
    let data_len = u32_from_le_bytes(slice_subrange(hdr, 12, 16));
    if metadata_len > MAX_SEGMENT_LEN || data_len > MAX_SEGMENT_LEN {
        return Err(FrameError::SegmentTooLong);
    }
    Ok(ResponseHeader { status, flags, metadata_len, data_len })
}

/// The number of payload bytes that follow a parsed request header.
pub fn request_body_len(h: &RequestHeader) -> (n: usize)
    requires
        h.path_len <= MAX_SEGMENT_LEN,
        h.data_len <= MAX_SEGMENT_LEN,
        h.metadata_len <= MAX_SEGMENT_LEN,
    ensures
        n == h.path_len + h.data_len + h.metadata_len,
{
    h.path_len as usize + h.data_len as usize + h.metadata_len as usize
}

/// The number of payload bytes that follow a parsed response header.
pub fn response_body_len(h: &ResponseHeader) -> (n: usize)
    requires
        h.metadata_len <= MAX_SEGMENT_LEN,
        h.data_len <= MAX_SEGMENT_LEN,
    ensures
        n == h.metadata_len + h.data_len,
{
    h.metadata_len as usize + h.data_len as usize
}

} // verus!
