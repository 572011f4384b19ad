//! AMQP 0-9-1 frame codec.
//!
//! Frame format: type(1) | channel(2) | size(4) | payload(size) | frame-end(1 = 0xCE).
//! Frame types: 1 method, 2 content header, 3 content body, 8 heartbeat.

use vstd::prelude::*;
use crate::amqp::types::{
    be16, be32, be64, from_be16, from_be32, from_be64, get_u16, get_u32, get_u64, push_all,
    copy_range, write_short, write_long, write_longlong, lemma_be16_roundtrip,
    lemma_be32_roundtrip, WireError, WireReader,
};
use crate::amqp::properties::{BasicProperties, decode_properties, encode_properties};

verus! {

pub const FRAME_METHOD: u8 = 1;
pub const FRAME_HEADER: u8 = 2;
pub const FRAME_BODY: u8 = 3;
pub const FRAME_HEARTBEAT: u8 = 8;
pub const FRAME_END: u8 = 0xCE;

pub const DEFAULT_FRAME_MAX: u32 = 131_072;
pub const DEFAULT_CHANNEL_MAX: u16 = 2047;
pub const DEFAULT_HEARTBEAT: u16 = 60;

/// The eight bytes a client sends first: `AMQP` then protocol 0-9-1.
pub fn protocol_header() -> (r: [u8; 8])
    ensures
        r@ == seq![65u8, 77u8, 81u8, 80u8, 0u8, 0u8, 9u8, 1u8],
{
    let r: [u8; 8] = [65, 77, 81, 80, 0, 0, 9, 1];
    assert(r@ =~= seq![65u8, 77u8, 81u8, 80u8, 0u8, 0u8, 9u8, 1u8]);
    r
}

/// A decoded frame.
#[derive(Clone, Debug)]
pub struct AmqpFrame {
    pub frame_type: u8,
    pub channel: u16,
    pub payload: Vec<u8>,
}

/// The payload of a method frame split into its identifiers and arguments.
#[derive(Clone, Debug)]
pub struct MethodFrame {
    pub class_id: u16,
    pub method_id: u16,
    pub arguments: Vec<u8>,
}

/// Why a buffer does not hold a frame.
#[derive(Clone, Copy, Debug, PartialEq, Eq)]
pub enum FrameError {
    /// Fewer bytes than the fixed frame overhead.
    TooShort,
    /// The header announces more payload than the buffer holds.
    Incomplete,
    /// The byte after the payload is not `FRAME_END`; it is carried.
    BadFrameEnd(u8),
    /// A method payload shorter than its two identifiers.
    MethodTooShort,
    /// A content header payload shorter than its fixed fields.
    HeaderTooShort,
    /// Content header properties that do not read; the reason is carried.
    BadProperties(WireError),
}

/// A decoded content header.
#[derive(Clone, Debug)]
pub struct ContentHeader {
    pub class_id: u16,
    pub body_size: u64,
    pub properties: BasicProperties,
}

/// The payload of a content header: class, weight zero, body size, then
/// the properties.
pub open spec fn header_payload(class_id: u16, body_size: u64, props: Seq<u8>) -> Seq<u8> {
    be16(class_id) + be16(0) + be64(body_size) + props
}

/// The bytes of a frame of type `t` on channel `ch` carrying `payload`.
pub open spec fn frame_bytes(t: u8, ch: u16, payload: Seq<u8>) -> Seq<u8> {
    seq![t] + be16(ch) + be32(payload.len() as u32) + payload + seq![FRAME_END]
}

/// The payload of a method frame.
pub open spec fn method_payload(class_id: u16, method_id: u16, args: Seq<u8>) -> Seq<u8> {
    be16(class_id) + be16(method_id) + args
}

/// Writes the seven header bytes of a frame.
fn write_frame_header(buf: &mut Vec<u8>, frame_type: u8, channel: u16, payload_size: u32)
    ensures
        final(buf)@ == old(buf)@ + seq![frame_type] + be16(channel) + be32(payload_size),
{
    buf.push(frame_type);
    write_short(buf, channel);
    write_long(buf, payload_size);
    assert(buf@ =~= old(buf)@ + seq![frame_type] + be16(channel) + be32(payload_size));
}

/// Encodes a method frame.
pub fn encode_method_frame(channel: u16, class_id: u16, method_id: u16, args: &[u8]) -> (r: Vec<
    u8,
>)
    requires
        args@.len() + 4 <= u32::MAX,
    ensures
        r@ == frame_bytes(FRAME_METHOD, channel, method_payload(class_id, method_id, args@)),
{
    let payload_size = (4 + args.len()) as u32;
    let mut buf: Vec<u8> = Vec::new();
    write_frame_header(&mut buf, FRAME_METHOD, channel, payload_size);
    write_short(&mut buf, class_id);
    write_short(&mut buf, method_id);
    push_all(&mut buf, args);
    buf.push(FRAME_END);
    assert(method_payload(class_id, method_id, args@).len() == payload_size);
    assert(buf@ =~= frame_bytes(FRAME_METHOD, channel, method_payload(class_id, method_id, args@)));
    buf
}

/// Encodes a content body frame.
pub fn encode_body_frame(channel: u16, body: &[u8]) -> (r: Vec<u8>)
    requires
        body@.len() <= u32::MAX,
    ensures
        r@ == frame_bytes(FRAME_BODY, channel, body@),
{
    let mut buf: Vec<u8> = Vec::new();
    write_frame_header(&mut buf, FRAME_BODY, channel, body.len() as u32);
    push_all(&mut buf, body);
    buf.push(FRAME_END);
    assert(buf@ =~= frame_bytes(FRAME_BODY, channel, body@));
    buf
}

/// The heartbeat frame: type 8 on channel 0 with an empty payload.
pub fn heartbeat_bytes() -> (r: [u8; 8])
    ensures
        r@ == frame_bytes(FRAME_HEARTBEAT, 0, Seq::empty()),
{
    let r = [FRAME_HEARTBEAT, 0, 0, 0, 0, 0, 0, FRAME_END];
    assert(r@ =~= frame_bytes(FRAME_HEARTBEAT, 0, Seq::empty()));
    r
}

/// The heartbeat frame as an owned buffer.
pub fn encode_heartbeat() -> (r: Vec<u8>)
    ensures
        r@ == frame_bytes(FRAME_HEARTBEAT, 0, Seq::empty()),
{
    let hb = heartbeat_bytes();
    let mut v: Vec<u8> = Vec::with_capacity(8);
    push_all(&mut v, &hb);
    assert(v@ =~= frame_bytes(FRAME_HEARTBEAT, 0, Seq::empty()));
    v
}

/// The payload size a frame header announces.
pub open spec fn announced_size(data: Seq<u8>) -> int {
    from_be32(data.subrange(3, 7)) as int
}

/// What `decode_frame` makes of `data`: the frame at its start and the
/// number of bytes it takes, or why there is none.
pub open spec fn decode_frame_spec(data: Seq<u8>) -> Result<(u8, u16, Seq<u8>, int), FrameError> {
    if data.len() < 8 {
        Err(FrameError::TooShort)
    } else if data.len() < announced_size(data) + 8 {
        Err(FrameError::Incomplete)
    } else if data[7 + announced_size(data)] != FRAME_END {
        Err(FrameError::BadFrameEnd(data[7 + announced_size(data)]))
    } else {
        Ok(
            (
                data[0],
                from_be16(data.subrange(1, 3)),
                data.subrange(7, 7 + announced_size(data)),
                announced_size(data) + 8,
            ),
        )
    }
}

/// Decodes the frame at the start of `data`, returning it and the number of
/// bytes it occupies.
pub fn decode_frame(data: &[u8]) -> (r: Result<(AmqpFrame, usize), FrameError>)
    ensures
        match decode_frame_spec(data@) {
            Ok((t, ch, p, n)) => r matches Ok((f, m)) && f.frame_type == t && f.channel == ch
                && f.payload@ == p && m == n,
            Err(e) => r == Err::<(AmqpFrame, usize), FrameError>(e),
        },
{
    if data.len() < 8 {
        return Err(FrameError::TooShort);
    }
    let frame_type = data[0];
    let channel = get_u16(data, 1);
    let size = get_u32(data, 3) as usize;
    if data.len() - 8 < size {
        return Err(FrameError::Incomplete);
    }
    if data[7 + size] != FRAME_END {
        return Err(FrameError::BadFrameEnd(data[7 + size]));
    }
    let payload = copy_range(data, 7, 7 + size);
    Ok((AmqpFrame { frame_type, channel, payload }, size + 8))
}

/// Splits a method payload into class id, method id and arguments.
pub fn decode_method(payload: &[u8]) -> (r: Result<MethodFrame, FrameError>)
    ensures
        payload@.len() < 4 <==> r is Err,
        r is Err ==> r == Err::<MethodFrame, FrameError>(FrameError::MethodTooShort),
        r matches Ok(m) ==> m.class_id == from_be16(payload@.subrange(0, 2)) && m.method_id
            == from_be16(payload@.subrange(2, 4)) && m.arguments@ == payload@.subrange(
            4,
            payload@.len() as int,
        ),
{
    if payload.len() < 4 {
        return Err(FrameError::MethodTooShort);
    }
    let class_id = get_u16(payload, 0);
    let method_id = get_u16(payload, 2);
    let arguments = copy_range(payload, 4, payload.len());
    Ok(MethodFrame { class_id, method_id, arguments })
}

/// Body bytes per frame for a negotiated `frame_max`: the frame overhead
/// is taken off; a `frame_max` of 8 or less leaves the body whole.
pub open spec fn chunk_size(body_len: int, frame_max: u32) -> int {
    if frame_max > 8 {
        frame_max - 8
    } else {
        body_len
    }
}

/// The `i`-th chunk of `body` in chunks of `c` bytes.
pub open spec fn chunk(body: Seq<u8>, c: int, i: int) -> Seq<u8> {
    let start = i * c;
    let end = if start + c < body.len() { start + c } else { body.len() as int };
    body.subrange(start, end)
}

/// Number of chunks of `c` bytes that `body` splits into.
pub open spec fn chunk_count(len: int, c: int) -> int {
    if len == 0 { 0 } else { (len + c - 1) / c }
}

/// Splits a message body into body frames that each fit in `frame_max`.
pub fn split_body_frames(channel: u16, body: &[u8], frame_max: u32) -> (r: Vec<Vec<u8>>)
    requires
        frame_max <= 8 ==> body@.len() <= u32::MAX,
    ensures
        r@.len() == chunk_count(body@.len() as int, chunk_size(body@.len() as int, frame_max)),
        forall|i: int|
            0 <= i < r@.len() ==> #[trigger] r@[i]@ == frame_bytes(
                FRAME_BODY,
                channel,
                chunk(body@, chunk_size(body@.len() as int, frame_max), i),
            ),
{
    let max_body_per_frame: usize = if frame_max > 8 {
        (frame_max - 8) as usize
    } else {
        body.len()
    };
    let ghost c = chunk_size(body@.len() as int, frame_max);
    let mut frames: Vec<Vec<u8>> = Vec::new();
    if body.len() == 0 {
        return frames;
    }
    let mut start: usize = 0;
    let ghost len = body@.len() as int;
    let ghost count = chunk_count(len, c);
    assert(count > 0) by (nonlinear_arith)
        requires count == (len + c - 1) / c, len > 0, c > 0;
    assert(frames@.len() * c == 0) by (nonlinear_arith)
        requires frames@.len() == 0;
    while start < body.len()
        invariant
            c == max_body_per_frame as int,
            c > 0,
            len == body@.len(),
            0 < len,
            c <= u32::MAX,
            count == chunk_count(len, c),
            start as int == (if frames@.len() * c < len { frames@.len() * c } else { len }),
            frames@.len() * c < len ==> frames@.len() < count,
            frames@.len() * c >= len ==> frames@.len() == count,
            forall|i: int|
                0 <= i < frames@.len() ==> #[trigger] frames@[i]@ == frame_bytes(
                    FRAME_BODY,
                    channel,
                    chunk(body@, c, i),
                ),
        decreases body@.len() - start,
    {
        let ghost k = frames@.len() as int;
        assert(k * c < len);
        let end: usize = if body.len() - start > max_body_per_frame {
            start + max_body_per_frame
        } else {
            body.len()
        };
        let piece = copy_range(body, start, end);
        let frame = encode_body_frame(channel, piece.as_slice());
        assert(piece@ == chunk(body@, c, k));
        frames.push(frame);
        proof {
            let n = k + 1;
            assert(n * c == k * c + c) by (nonlinear_arith)
                requires n == k + 1;
            if n * c < len {
                assert(n < count) by (nonlinear_arith)
                    requires n * c < len, c > 0, len > 0, count == (len + c - 1) / c;
            } else {
                assert(n == count) by (nonlinear_arith)
                    requires
                        k * c < len,
                        len <= n * c,
                        c > 0,
                        n == k + 1,
                        count == (len + c - 1) / c,
                ;
            }
        }
        start = end;
    }
    frames
}

// ─── Laws ─────────────────────────────────────────────────────────────

/// Decoding the bytes of an encoded frame, whatever follows them, gives
/// back its type, channel and payload, and the frame's exact length.
pub proof fn lemma_frame_roundtrip(t: u8, ch: u16, payload: Seq<u8>, rest: Seq<u8>)
    requires
        payload.len() <= u32::MAX,
    ensures
        decode_frame_spec(frame_bytes(t, ch, payload) + rest) == Ok::<
            (u8, u16, Seq<u8>, int),
            FrameError,
        >((t, ch, payload, payload.len() as int + 8)),
{
    let data = frame_bytes(t, ch, payload) + rest;
    lemma_be16_roundtrip(ch);
    lemma_be32_roundtrip(payload.len() as u32);
    assert(data.subrange(1, 3) =~= be16(ch));
    assert(data.subrange(3, 7) =~= be32(payload.len() as u32));
    assert(data.subrange(7, 7 + payload.len() as int) =~= payload);
    assert(data[7 + payload.len() as int] == FRAME_END);
}

/// A method frame decodes back to the class id, method id and arguments
/// it was built from.
pub proof fn lemma_method_roundtrip(class_id: u16, method_id: u16, args: Seq<u8>)
    ensures
        ({
            let p = method_payload(class_id, method_id, args);
            &&& p.len() >= 4
            &&& from_be16(p.subrange(0, 2)) == class_id
            &&& from_be16(p.subrange(2, 4)) == method_id
            &&& p.subrange(4, p.len() as int) == args
        }),
{
    let p = method_payload(class_id, method_id, args);
    lemma_be16_roundtrip(class_id);
    lemma_be16_roundtrip(method_id);
    assert(p.subrange(0, 2) =~= be16(class_id));
    assert(p.subrange(2, 4) =~= be16(method_id));
    assert(p.subrange(4, p.len() as int) =~= args);
}

/// The chunks that `split_body_frames` carries, put back together in
/// order, are the whole body.
pub proof fn lemma_chunks_rebuild_body(body: Seq<u8>, c: int, n: int)
    requires
        c > 0,
        0 <= n,
        n * c <= body.len(),
    ensures
        chunks_concat(body, c, n) == body.subrange(0, n * c),
    decreases n,
{
    if n == 0 {
        assert(n * c == 0) by (nonlinear_arith)
            requires n == 0;
        assert(body.subrange(0, 0) =~= Seq::<u8>::empty());
    } else {
        assert((n - 1) * c + c == n * c) by (nonlinear_arith);
        assert(0 <= (n - 1) * c) by (nonlinear_arith)
            requires n >= 1, c > 0;
        lemma_chunks_rebuild_body(body, c, n - 1);
        assert(chunk(body, c, n - 1) =~= body.subrange((n - 1) * c, n * c));
        assert(body.subrange(0, n * c) =~= body.subrange(0, (n - 1) * c) + chunk(body, c, n - 1));
    }
}

/// The first `n` chunks of `body`, concatenated.
pub open spec fn chunks_concat(body: Seq<u8>, c: int, n: int) -> Seq<u8>
    decreases n,
{
    if n <= 0 {
        Seq::empty()
    } else {
        chunks_concat(body, c, n - 1) + chunk(body, c, n - 1)
    }
}

/// All chunks of a body, concatenated, give back the body.
pub proof fn lemma_split_covers_body(body: Seq<u8>, c: int)
    requires
        c > 0,
    ensures
        chunks_concat(body, c, chunk_count(body.len() as int, c)) == body,
{
    let len = body.len() as int;
    let n = chunk_count(len, c);
    if len == 0 {
        assert(body =~= Seq::<u8>::empty());
    } else {
        assert(n >= 1 && (n - 1) * c < len && len <= n * c) by (nonlinear_arith)
            requires c > 0, len > 0, n == (len + c - 1) / c;
        lemma_chunks_rebuild_body(body, c, n - 1);
        assert((n - 1) * c + c == n * c) by (nonlinear_arith);
        assert(body =~= body.subrange(0, (n - 1) * c) + chunk(body, c, n - 1));
    }
}

/// Encodes a content header frame announcing `body_size` bytes of body
/// with the given properties.
pub fn encode_content_header(channel: u16, class_id: u16, body_size: u64, properties: &BasicProperties) -> (r: Vec<u8>)
    requires
        encode_properties(properties.slots()) is Ok,
        encode_properties(properties.slots())->Ok_0.len() + 12 <= u32::MAX,
    ensures
        r@ == frame_bytes(
            FRAME_HEADER,
            channel,
            header_payload(class_id, body_size, encode_properties(properties.slots())->Ok_0),
        ),
{
    let mut props: Vec<u8> = Vec::new();
    let _ = properties.encode(&mut props);
    assert(props@ =~= encode_properties(properties.slots())->Ok_0);
    let payload_size = (12 + props.len()) as u32;
    let mut buf: Vec<u8> = Vec::new();
    write_frame_header(&mut buf, FRAME_HEADER, channel, payload_size);
    write_short(&mut buf, class_id);
    write_short(&mut buf, 0);
    write_longlong(&mut buf, body_size);
    push_all(&mut buf, props.as_slice());
    buf.push(FRAME_END);
    assert(header_payload(class_id, body_size, props@).len() == payload_size);
    assert(buf@ =~= frame_bytes(FRAME_HEADER, channel, header_payload(class_id, body_size, props@)));
    buf
}

/// What a content header payload holds: class, body size and properties
/// (by their model), or why it does not read.
pub open spec fn decode_header_spec(p: Seq<u8>) -> Result<(u16, u64, Seq<Option<crate::amqp::properties::PropValue>>), FrameError> {
    if p.len() < 14 {
        Err(FrameError::HeaderTooShort)
    } else {
        match decode_properties(p.subrange(12, p.len() as int)) {
            Ok((sl, _)) => Ok((from_be16(p.subrange(0, 2)), from_be64(p.subrange(4, 12)), sl)),
            Err(e) => Err(FrameError::BadProperties(e)),
        }
    }
}

/// Decodes the payload of a content header frame.
pub fn decode_content_header(payload: &[u8]) -> (r: Result<ContentHeader, FrameError>)
    ensures
        match decode_header_spec(payload@) {
            Ok((c, n, sl)) => r matches Ok(h) && h.class_id == c && h.body_size == n
                && h.properties.slots() == sl,
            Err(e) => r == Err::<ContentHeader, FrameError>(e),
        },
{
    if payload.len() < 14 {
        return Err(FrameError::HeaderTooShort);
    }
    let class_id = get_u16(payload, 0);
    let body_size = get_u64(payload, 4);
    let mut rd = WireReader { data: payload, pos: 12 };
    assert(rd.rest() =~= payload@.subrange(12, payload@.len() as int));
    match BasicProperties::decode(&mut rd) {
        Ok(properties) => Ok(ContentHeader { class_id, body_size, properties }),
        Err(e) => Err(FrameError::BadProperties(e)),
    }
}

} // verus!
