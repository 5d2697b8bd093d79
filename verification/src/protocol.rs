//! OpenD framing: a 44-byte header (magic `FT`, protocol id, format, version,
//! serial number, body length, SHA-1 of the body, 8 reserved bytes) followed by
//! the body. All integers are little-endian.
use vstd::prelude::*;
use sha1::Digest;
use vstd::string::StringExecFns;
use crate::futu::{ConnectorError, spec_is_push_proto, is_push_proto};

verus! {

pub const API_PROTO_VER: u8 = 0;
pub const PROTO_FMT_PROTOBUF: u8 = 0;
pub const HEAD_LEN: usize = 44;

/// A decoded frame header.
#[derive(Debug, Clone)]
pub struct ProtoHeader {
    pub proto_id: u32,
    pub proto_fmt_type: u8,
    pub proto_ver: u8,
    pub serial_no: u32,
    pub body_len: u32,
    pub sha1: [u8; 20],
}

/// SHA-1 digest of a byte sequence.
pub uninterp spec fn sha1_digest(data: Seq<u8>) -> [u8; 20];

/// Calls `sha1::Sha1::digest` (the `Digest` trait of the `digest` crate); its
/// result is the SHA-1 of `data`, named `sha1_digest`.
#[verifier::external_body]
fn sha1_of(data: &[u8]) -> (d: [u8; 20])
    ensures
        d == sha1_digest(data@),
{
    sha1::Sha1::digest(data).into()
}

/// Little-endian bytes of a `u32` (`u32::to_le_bytes`).
pub open spec fn le_bytes(x: u32) -> Seq<u8> {
    seq![(x & 0xff) as u8, ((x >> 8) & 0xff) as u8, ((x >> 16) & 0xff) as u8, ((x >> 24) & 0xff) as u8]
}

/// The `u32` with little-endian bytes `b0..b3` (`u32::from_le_bytes`).
pub open spec fn from_le(b0: u8, b1: u8, b2: u8, b3: u8) -> u32 {
    (b0 as u32) | ((b1 as u32) << 8) | ((b2 as u32) << 16) | ((b3 as u32) << 24)
}

/// The full frame for a body.
pub open spec fn spec_pack_message(proto_id: u32, serial_no: u32, body: Seq<u8>) -> Seq<u8> {
    seq![0x46u8, 0x54u8] + le_bytes(proto_id) + seq![PROTO_FMT_PROTOBUF, API_PROTO_VER] + le_bytes(
        serial_no,
    ) + le_bytes((body.len() % 0x1_0000_0000) as u32) + sha1_digest(body)@ + Seq::new(
        8,
        |i: int| 0u8,
    ) + body
}

/// Decoding of a 44-byte header; the magic must be `FT`.
pub open spec fn spec_unpack_header(b: Seq<u8>) -> Option<ProtoHeader> {
    if b[0] != 0x46u8 || b[1] != 0x54u8 {
        None
    } else {
        Some(
            ProtoHeader {
                proto_id: from_le(b[2], b[3], b[4], b[5]),
                proto_fmt_type: b[6],
                proto_ver: b[7],
                serial_no: from_le(b[8], b[9], b[10], b[11]),
                body_len: from_le(b[12], b[13], b[14], b[15]),
                sha1: arbitrary(),
            },
        )
    }
}

/// Header fields as decoded, the digest included.
pub open spec fn header_matches(h: ProtoHeader, b: Seq<u8>) -> bool {
    &&& spec_unpack_header(b) matches Some(sh)
    &&& h.proto_id == sh.proto_id
    &&& h.proto_fmt_type == sh.proto_fmt_type
    &&& h.proto_ver == sh.proto_ver
    &&& h.serial_no == sh.serial_no
    &&& h.body_len == sh.body_len
    &&& h.sha1@ == b.subrange(16, 36)
}

proof fn lemma_le_roundtrip(x: u32)
    ensures
        from_le(
            (x & 0xff) as u8,
            ((x >> 8) & 0xff) as u8,
            ((x >> 16) & 0xff) as u8,
            ((x >> 24) & 0xff) as u8,
        ) == x,
{
    assert(((x & 0xff) as u8 as u32) | ((((x >> 8) & 0xff) as u8 as u32) << 8) | ((((x >> 16)
        & 0xff) as u8 as u32) << 16) | ((((x >> 24) & 0xff) as u8 as u32) << 24) == x)
        by (bit_vector);
}

fn push_le(out: &mut Vec<u8>, x: u32)
    ensures
        final(out)@ == old(out)@ + le_bytes(x),
{
    out.push((x & 0xff) as u8);
    out.push(((x >> 8) & 0xff) as u8);
    out.push(((x >> 16) & 0xff) as u8);
    out.push(((x >> 24) & 0xff) as u8);
    assert(out@ =~= old(out)@ + le_bytes(x));
}

fn read_le(b0: u8, b1: u8, b2: u8, b3: u8) -> (x: u32)
    ensures
        x == from_le(b0, b1, b2, b3),
{
    (b0 as u32) | ((b1 as u32) << 8) | ((b2 as u32) << 16) | ((b3 as u32) << 24)
}

/// Frames a body: header (with the body's SHA-1) followed by the body.
pub fn pack_message(proto_id: u32, serial_no: u32, body: &[u8]) -> (out: Vec<u8>)
    ensures
        out@ == spec_pack_message(proto_id, serial_no, body@),
{
    let mut out: Vec<u8> = Vec::new();
    out.push(0x46u8);
    out.push(0x54u8);
    push_le(&mut out, proto_id);
    out.push(PROTO_FMT_PROTOBUF);
    out.push(API_PROTO_VER);
    push_le(&mut out, serial_no);
    let len = body.len();
    let len32 = ((len as u64) % 0x1_0000_0000u64) as u32;
    push_le(&mut out, len32);
    let digest = sha1_of(body);
    let mut i: usize = 0;
    let ghost before = out@;
    while i < 20
        invariant
            i <= 20,
            digest@.len() == 20,
            out@ == before + digest@.subrange(0, i as int),
        decreases 20 - i,
    {
        out.push(digest[i]);
        i += 1;
        assert(out@ =~= before + digest@.subrange(0, i as int));
    }
    assert(digest@.subrange(0, 20) =~= digest@);
    let ghost before_pad = out@;
    let mut k: usize = 0;
    while k < 8
        invariant
            k <= 8,
            out@ == before_pad + Seq::new(k as nat, |j: int| 0u8),
        decreases 8 - k,
    {
        out.push(0u8);
        k += 1;
        assert(out@ =~= before_pad + Seq::new(k as nat, |j: int| 0u8));
    }
    let ghost before_body = out@;
    let mut j: usize = 0;
    while j < body.len()
        invariant
            j <= body@.len(),
            out@ == before_body + body@.subrange(0, j as int),
        decreases body.len() - j,
    {
        out.push(body[j]);
        j += 1;
        assert(out@ =~= before_body + body@.subrange(0, j as int));
    }
    assert(body@.subrange(0, body@.len() as int) =~= body@);
    assert(out@ =~= spec_pack_message(proto_id, serial_no, body@));
    out
}

/// Decodes a frame header; fails when the magic is not `FT`.
pub fn unpack_header(buf: &[u8; 44]) -> (r: Result<ProtoHeader, ConnectorError>)
    ensures
        r is Ok <==> spec_unpack_header(buf@) is Some,
        spec_unpack_header(buf@) is None <==> (r matches Err(ConnectorError::Protocol(m)) && m@
            == "invalid magic"@),
        r matches Ok(h) ==> header_matches(h, buf@),
{
    if buf[0] != 0x46u8 || buf[1] != 0x54u8 {
        return Err(ConnectorError::Protocol(String::from_str("invalid magic")));
    }
    let proto_id = read_le(buf[2], buf[3], buf[4], buf[5]);
    let proto_fmt_type = buf[6];
    let proto_ver = buf[7];
    let serial_no = read_le(buf[8], buf[9], buf[10], buf[11]);
    let body_len = read_le(buf[12], buf[13], buf[14], buf[15]);
    let mut sha1 = [0u8; 20];
    let mut i: usize = 0;
    while i < 20
        invariant
            i <= 20,
            buf@.len() == 44,
            sha1@.len() == 20,
            forall|j: int| 0 <= j < i ==> sha1@[j] == buf@[16 + j],
        decreases 20 - i,
    {
        sha1[i] = buf[16 + i];
        i += 1;
    }
    assert(sha1@ =~= buf@.subrange(16, 36));
    Ok(ProtoHeader { proto_id, proto_fmt_type, proto_ver, serial_no, body_len, sha1 })
}

/// What the reader does with a frame once its header and body are read.
#[derive(Debug, Clone, Copy, PartialEq, Eq, Structural)]
pub enum FrameDisposition {
    /// The body is not protobuf: stop reading.
    UnsupportedFormat,
    /// The body's digest does not match the header: drop the frame.
    DigestMismatch,
    /// A push message: hand it to the push handler.
    Push,
    /// A reply: complete the pending request with this serial number.
    Reply,
}

/// The disposition of a frame: the format must be protobuf, the body must
/// hash to the header's digest, and push protocols go to the push handler.
pub open spec fn spec_frame_disposition(h: ProtoHeader, body: Seq<u8>) -> FrameDisposition {
    if h.proto_fmt_type != PROTO_FMT_PROTOBUF {
        FrameDisposition::UnsupportedFormat
    } else if sha1_digest(body)@ != h.sha1@ {
        FrameDisposition::DigestMismatch
    } else if spec_is_push_proto(h.proto_id) {
        FrameDisposition::Push
    } else {
        FrameDisposition::Reply
    }
}

/// Decides what the reader does with a received frame.
pub fn frame_disposition(h: &ProtoHeader, body: &[u8]) -> (d: FrameDisposition)
    ensures
        d == spec_frame_disposition(*h, body@),
{
    if h.proto_fmt_type != PROTO_FMT_PROTOBUF {
        return FrameDisposition::UnsupportedFormat;
    }
    let digest = sha1_of(body);
    let mut i: usize = 0;
    while i < 20
        invariant
            i <= 20,
            digest@.len() == 20,
            h.sha1@.len() == 20,
            forall|j: int| 0 <= j < i ==> digest@[j] == h.sha1@[j],
            digest == sha1_digest(body@),
            h.proto_fmt_type == PROTO_FMT_PROTOBUF,
        decreases 20 - i,
    {
        if digest[i] != h.sha1[i] {
            assert(digest@[i as int] != h.sha1@[i as int]);
            assert(digest@ != h.sha1@);
            return FrameDisposition::DigestMismatch;
        }
        i += 1;
    }
    assert(digest@ =~= h.sha1@);
    if is_push_proto(h.proto_id) {
        FrameDisposition::Push
    } else {
        FrameDisposition::Reply
    }
}

/// A frame made by `pack_message` decodes to the same protocol id, serial
/// number, body length and digest, with protobuf format and the API version;
/// the bytes after the header are the body, and the reader accepts it (pushes
/// go to the push handler, the rest complete their request).
pub proof fn law_pack_unpack_roundtrip(proto_id: u32, serial_no: u32, body: Seq<u8>)
    requires
        body.len() <= u32::MAX,
    ensures
        ({
            let frame = spec_pack_message(proto_id, serial_no, body);
            &&& frame.len() == HEAD_LEN + body.len()
            &&& spec_unpack_header(frame.subrange(0, 44)) matches Some(h)
            &&& h.proto_id == proto_id
            &&& h.serial_no == serial_no
            &&& h.body_len == body.len()
            &&& h.proto_fmt_type == PROTO_FMT_PROTOBUF
            &&& h.proto_ver == API_PROTO_VER
            &&& frame.subrange(16, 36) == sha1_digest(body)@
            &&& frame.subrange(44, frame.len() as int) == body
        }),
        forall|h: ProtoHeader|
            header_matches(h, #[trigger] spec_pack_message(proto_id, serial_no, body).subrange(0, 44))
                ==> spec_frame_disposition(h, body) == if spec_is_push_proto(proto_id) {
                FrameDisposition::Push
            } else {
                FrameDisposition::Reply
            },
{
    let frame = spec_pack_message(proto_id, serial_no, body);
    let len32 = (body.len() % 0x1_0000_0000) as u32;
    assert(len32 == body.len());
    assert(sha1_digest(body)@.len() == 20);
    let head = frame.subrange(0, 44);
    lemma_le_roundtrip(proto_id);
    lemma_le_roundtrip(serial_no);
    lemma_le_roundtrip(len32);
    assert(head[2] == (proto_id & 0xff) as u8);
    assert(head[5] == ((proto_id >> 24) & 0xff) as u8);
    assert(head[8] == (serial_no & 0xff) as u8);
    assert(head[12] == (len32 & 0xff) as u8);
    assert(frame.subrange(16, 36) =~= sha1_digest(body)@);
    assert(frame.subrange(44, frame.len() as int) =~= body);
    assert(head.subrange(16, 36) =~= sha1_digest(body)@);
}

} // verus!
