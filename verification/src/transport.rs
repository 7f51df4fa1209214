//! Bounded stream framing for document-engine control-plane messages.

use vstd::prelude::*;
use vstd::slice::{slice_subrange, slice_to_vec};
use crate::bytes::{from_le16, from_le32, from_le64, le16, le32, le64, lemma_read_encoded, read_le16, read_le32, read_le64};
use crate::protocol::RequestId;

use crate::text::{decimal, hex2, push_decimal, push_hex2, push_text};

verus! {

/// `std::io::Error`, carried through unchanged from the byte stream.
#[verifier::external_type_specification]
#[verifier::external_body]
pub struct ExIoError(std::io::Error);

/// Version written into every control-frame header.
pub const CONTROL_FRAME_VERSION: u16 = 1;

/// Fixed length of a control-frame header.
pub const CONTROL_FRAME_HEADER_BYTES: usize = 20;

/// The only flag byte this version understands.
const SUPPORTED_FLAGS: u8 = 0;

/// Direction of a control frame.
#[derive(Clone, Copy, Debug, Eq, PartialEq, Structural)]
pub enum FrameKind {
    Request,
    Response,
}

/// The wire byte of a frame kind.
pub open spec fn wire_spec(kind: FrameKind) -> u8 {
    match kind {
        FrameKind::Request => 1,
        FrameKind::Response => 2,
    }
}

impl FrameKind {
    pub fn wire(self) -> (b: u8)
        ensures
            b == wire_spec(self),
    {
        match self {
            FrameKind::Request => 1,
            FrameKind::Response => 2,
        }
    }

    pub fn from_wire(value: u8) -> (r: Result<Self, TransportError>)
        ensures
            value == 1 ==> r matches Ok(FrameKind::Request),
            value == 2 ==> r matches Ok(FrameKind::Response),
            value != 1 && value != 2 ==> (r matches Err(TransportError::UnknownFrameKind(v)) && v == value),
    {
        match value {
            1 => Ok(FrameKind::Request),
            2 => Ok(FrameKind::Response),
            other => Err(TransportError::UnknownFrameKind(other)),
        }
    }
}

/// Admission limit for control-frame payloads.
#[derive(Clone, Copy, Debug, Eq, PartialEq, Structural)]
pub struct FrameLimits {
    pub max_control_payload_bytes: u32,
}

impl FrameLimits {
    pub fn new(max_control_payload_bytes: u32) -> (l: Self)
        ensures
            l.max_control_payload_bytes == max_control_payload_bytes,
    {
        FrameLimits { max_control_payload_bytes }
    }

    pub fn max_control_payload_bytes(self) -> (m: u32)
        ensures
            m == self.max_control_payload_bytes,
    {
        self.max_control_payload_bytes
    }
}

/// One control frame: direction, correlation id and opaque payload.
#[derive(Clone, Debug, Eq, PartialEq)]
pub struct Frame {
    pub kind: FrameKind,
    pub request_id: RequestId,
    pub payload: Vec<u8>,
}

impl Frame {
    pub fn new(kind: FrameKind, request_id: RequestId, payload: Vec<u8>) -> (f: Self)
        ensures
            f.kind == kind,
            f.request_id == request_id,
            f.payload@ == payload@,
    {
        Frame { kind, request_id, payload }
    }
}

/// Why a control frame could not be written or read.
#[derive(Debug)]
pub enum TransportError {
    Io(std::io::Error),
    BadMagic([u8; 4]),
    UnsupportedFrameVersion { actual: u16, supported: u16 },
    UnknownFrameKind(u8),
    UnsupportedFlags(u8),
    PayloadTooLarge { actual: u64, max: u32 },
    TruncatedHeader { received: usize },
    TruncatedPayload { expected: u32, received: u32 },
}

impl From<std::io::Error> for TransportError {
    fn from(value: std::io::Error) -> (r: Self) {
        TransportError::Io(value)
    }
}

impl vstd::std_specs::convert::FromSpecImpl<std::io::Error> for TransportError {
    open spec fn obeys_from_spec() -> bool {
        true
    }

    open spec fn from_spec(v: std::io::Error) -> TransportError {
        TransportError::Io(v)
    }
}

/// The four magic bytes that open every control frame (`DETR`).
pub open spec fn frame_magic() -> Seq<u8> {
    seq![0x44u8, 0x45u8, 0x54u8, 0x52u8]
}

/// The header written for a frame.
pub open spec fn header_spec(kind: FrameKind, request_id: u64, payload_len: u32) -> Seq<u8> {
    frame_magic() + le16(1) + seq![wire_spec(kind), 0u8] + le64(request_id) + le32(payload_len)
}

/// What a received header announces, or why it is refused, in checking order.
pub open spec fn header_decision(h: Seq<u8>, limits: FrameLimits) -> Result<(FrameKind, u64, u32), TransportError> {
    if h.subrange(0, 4) != frame_magic() {
        Err(TransportError::BadMagic([h[0], h[1], h[2], h[3]]))
    } else if from_le16(h, 4) != 1 {
        Err(TransportError::UnsupportedFrameVersion { actual: from_le16(h, 4), supported: 1 })
    } else if h[6] != 1 && h[6] != 2 {
        Err(TransportError::UnknownFrameKind(h[6]))
    } else if h[7] != 0 {
        Err(TransportError::UnsupportedFlags(h[7]))
    } else if from_le32(h, 16) > limits.max_control_payload_bytes {
        Err(TransportError::PayloadTooLarge { actual: from_le32(h, 16) as u64, max: limits.max_control_payload_bytes })
    } else {
        Ok((if h[6] == 1 { FrameKind::Request } else { FrameKind::Response }, from_le64(h, 8), from_le32(h, 16)))
    }
}

/// Encodes the fixed header of a frame.
pub fn encode_header(kind: FrameKind, request_id: RequestId, payload_len: u32) -> (h: [u8; 20])
    ensures
        h@ == header_spec(kind, request_id.0, payload_len),
{
    let id = request_id.get();
    let h: [u8; 20] = [
        0x44, 0x45, 0x54, 0x52,
        (CONTROL_FRAME_VERSION & 0xff) as u8, ((CONTROL_FRAME_VERSION >> 8u16) & 0xff) as u8,
        kind.wire(), SUPPORTED_FLAGS,
        (id & 0xff) as u8, ((id >> 8u64) & 0xff) as u8, ((id >> 16u64) & 0xff) as u8, ((id >> 24u64) & 0xff) as u8,
        ((id >> 32u64) & 0xff) as u8, ((id >> 40u64) & 0xff) as u8, ((id >> 48u64) & 0xff) as u8, ((id >> 56u64) & 0xff) as u8,
        (payload_len & 0xff) as u8, ((payload_len >> 8u32) & 0xff) as u8,
        ((payload_len >> 16u32) & 0xff) as u8, ((payload_len >> 24u32) & 0xff) as u8,
    ];
    assert(h@ =~= header_spec(kind, request_id.0, payload_len));
    h
}

/// Checks a received header and returns its kind, request id and payload length.
pub fn decode_header(h: &[u8], limits: FrameLimits) -> (r: Result<(FrameKind, RequestId, u32), TransportError>)
    requires
        h@.len() == CONTROL_FRAME_HEADER_BYTES,
    ensures
        match header_decision(h@, limits) {
            Ok(d) => (r matches Ok(x) && x.0 == d.0 && x.1.0 == d.1 && x.2 == d.2),
            Err(e) => (r matches Err(x) && x == e),
        },
{
    let magic: [u8; 4] = [h[0], h[1], h[2], h[3]];
    if !(h[0] == 0x44 && h[1] == 0x45 && h[2] == 0x54 && h[3] == 0x52) {
        proof {
            if h@.subrange(0, 4) == frame_magic() {
                assert(h@.subrange(0, 4)[0] == h@[0]);
                assert(h@.subrange(0, 4)[1] == h@[1]);
                assert(h@.subrange(0, 4)[2] == h@[2]);
                assert(h@.subrange(0, 4)[3] == h@[3]);
            }
        }
        return Err(TransportError::BadMagic(magic));
    }
    assert(h@.subrange(0, 4) =~= frame_magic());
    let version = read_le16(h, 4);
    if version != CONTROL_FRAME_VERSION {
        return Err(TransportError::UnsupportedFrameVersion { actual: version, supported: CONTROL_FRAME_VERSION });
    }
    let kind = match FrameKind::from_wire(h[6]) {
        Err(e) => {
            return Err(e);
        },
        Ok(k) => k,
    };
    let flags = h[7];
    if flags != SUPPORTED_FLAGS {
        return Err(TransportError::UnsupportedFlags(flags));
    }
    let request_id = RequestId::new(read_le64(h, 8));
    let payload_len = read_le32(h, 16);
    if payload_len > limits.max_control_payload_bytes {
        return Err(TransportError::PayloadTooLarge { actual: payload_len as u64, max: limits.max_control_payload_bytes });
    }
    Ok((kind, request_id, payload_len))
}

/// The payload length a frame may be written with, or why it is refused.
pub open spec fn write_decision(payload_len: nat, limits: FrameLimits) -> Result<u32, TransportError> {
    if payload_len > limits.max_control_payload_bytes {
        Err(TransportError::PayloadTooLarge {
            actual: if payload_len > u64::MAX { u64::MAX } else { payload_len as u64 },
            max: limits.max_control_payload_bytes,
        })
    } else {
        Ok(payload_len as u32)
    }
}

/// Admits a payload length for writing.
fn admit_payload(len: usize, limits: FrameLimits) -> (r: Result<u32, TransportError>)
    ensures
        match write_decision(len as nat, limits) {
            Ok(n) => (r matches Ok(m) && m == n),
            Err(e) => (r matches Err(x) && x == e),
        },
{
    let actual: u64 = if len as u128 > u64::MAX as u128 { u64::MAX } else { len as u64 };
    if actual > limits.max_control_payload_bytes as u64 {
        return Err(TransportError::PayloadTooLarge { actual, max: limits.max_control_payload_bytes });
    }
    Ok(len as u32)
}

/// `std::io::Write::write_all`: writes every byte of `bytes` or reports the writer's error.
/// Nothing is stated of what the writer does with the bytes.
#[verifier::external_body]
fn write_all_bytes<W: std::io::Write>(writer: &mut W, bytes: &[u8]) -> (r: Result<(), std::io::Error>) {
    writer.write_all(bytes)
}

/// `std::io::Read::read` into `buf[from..]`: bytes before `from` are untouched. What arrives,
/// and the count reported, depend on the stream and are not stated (a caller checks the count
/// against the space it offered).
#[verifier::external_body]
fn read_into<R: std::io::Read>(reader: &mut R, buf: &mut Vec<u8>, from: usize) -> (r: Result<usize, std::io::Error>)
    requires
        from < old(buf)@.len(),
    ensures
        final(buf)@.len() == old(buf)@.len(),
        final(buf)@.subrange(0, from as int) == old(buf)@.subrange(0, from as int),
{
    reader.read(&mut buf[from..])
}

/// Whether an I/O error reports an interrupted call (`ErrorKind::Interrupted`), which a reader
/// retries.
#[verifier::external_body]
fn is_interrupted(e: &std::io::Error) -> (b: bool) {
    e.kind() == std::io::ErrorKind::Interrupted
}

/// The bytes of a frame: its header, then its payload.
pub open spec fn frame_bytes(kind: FrameKind, request_id: u64, payload: Seq<u8>) -> Seq<u8> {
    header_spec(kind, request_id, payload.len() as u32) + payload
}

/// Encodes one frame after admitting its payload length.
pub fn encode_frame(frame: &Frame, limits: FrameLimits) -> (r: Result<Vec<u8>, TransportError>)
    ensures
        match write_decision(frame.payload@.len(), limits) {
            Err(e) => r == Err::<Vec<u8>, TransportError>(e),
            Ok(_) => r matches Ok(bs) && bs@ == frame_bytes(frame.kind, frame.request_id.0, frame.payload@),
        },
{
    let payload_len = match admit_payload(frame.payload.len(), limits) {
        Err(e) => {
            return Err(e);
        },
        Ok(n) => n,
    };
    let header = encode_header(frame.kind, frame.request_id, payload_len);
    let mut bytes: Vec<u8> = Vec::new();
    let mut i: usize = 0;
    while i < CONTROL_FRAME_HEADER_BYTES
        invariant
            0 <= i <= 20,
            header@.len() == 20,
            bytes@ == header@.subrange(0, i as int),
        decreases 20 - i,
    {
        bytes.push(header[i]);
        i = i + 1;
        assert(bytes@ =~= header@.subrange(0, i as int));
    }
    let mut j: usize = 0;
    while j < frame.payload.len()
        invariant
            0 <= j <= frame.payload@.len(),
            bytes@ == header@ + frame.payload@.subrange(0, j as int),
        decreases frame.payload@.len() - j,
    {
        bytes.push(frame.payload[j]);
        j = j + 1;
        assert(bytes@ =~= header@ + frame.payload@.subrange(0, j as int));
    }
    assert(frame.payload@.subrange(0, frame.payload@.len() as int) =~= frame.payload@);
    Ok(bytes)
}

/// Writes one frame: a refused payload length writes nothing; otherwise the frame's bytes
/// (`encode_frame`) are handed to the writer in one `write_all`.
pub fn write_frame<W: std::io::Write>(writer: &mut W, frame: &Frame, limits: FrameLimits) -> (r: Result<(), TransportError>)
    ensures
        write_decision(frame.payload@.len(), limits) matches Err(e) ==> (r matches Err(x) && x == e)
            && *final(writer) == *old(writer),
        r matches Err(TransportError::PayloadTooLarge { .. }) ==> write_decision(frame.payload@.len(), limits) is Err,
        write_decision(frame.payload@.len(), limits) is Ok ==> (r is Ok || r matches Err(TransportError::Io(_))),
{
    let bytes = match encode_frame(frame, limits) {
        Err(e) => {
            return Err(e);
        },
        Ok(b) => b,
    };
    match write_all_bytes(writer, bytes.as_slice()) {
        Err(e) => Err(TransportError::Io(e)),
        Ok(()) => Ok(()),
    }
}

/// A frame's bytes read back as that frame: header fields and payload.
pub proof fn law_frame_round_trip(kind: FrameKind, request_id: u64, payload: Seq<u8>, limits: FrameLimits)
    requires
        payload.len() <= limits.max_control_payload_bytes,
    ensures
        frame_outcome(frame_bytes(kind, request_id, payload), limits)
            == Ok::<Option<(FrameKind, u64, Seq<u8>)>, TransportError>(Some((kind, request_id, payload))),
{
    let n = payload.len() as u32;
    law_header_round_trip(kind, request_id, n, limits);
    let b = frame_bytes(kind, request_id, payload);
    assert(b.subrange(0, 20) =~= header_spec(kind, request_id, n));
    assert(b.subrange(20, 20 + n) =~= payload);
}

/// What the bytes received for one frame give, when they are every byte before the end of
/// the stream or the whole frame: nothing is a clean end of stream; fewer bytes than a header
/// is a truncated header; a refused header is its refusal; fewer payload bytes than announced
/// is a truncated payload; otherwise the frame's kind, request id and payload.
pub open spec fn frame_outcome(received: Seq<u8>, limits: FrameLimits)
    -> Result<Option<(FrameKind, u64, Seq<u8>)>, TransportError>
{
    if received.len() == 0 {
        Ok(None)
    } else if received.len() < CONTROL_FRAME_HEADER_BYTES {
        Err(TransportError::TruncatedHeader { received: received.len() as usize })
    } else {
        match header_decision(received.subrange(0, 20), limits) {
            Err(e) => Err(e),
            Ok((kind, id, n)) => if received.len() < 20 + n {
                Err(TransportError::TruncatedPayload { expected: n, received: (received.len() - 20) as u32 })
            } else {
                Ok(Some((kind, id, received.subrange(20, 20 + n))))
            },
        }
    }
}

/// How many bytes a frame reader takes from a stream that holds `s` and then ends: the 20
/// header bytes (fewer at the end of the stream) and, when the header is admitted, the payload
/// length it announces (fewer at the end of the stream); never a byte past the frame.
pub open spec fn frame_extent(s: Seq<u8>, limits: FrameLimits) -> int {
    if s.len() < CONTROL_FRAME_HEADER_BYTES {
        s.len() as int
    } else {
        match header_decision(s.subrange(0, 20), limits) {
            Err(_) => 20,
            Ok((_, _, n)) => if s.len() < 20 + n { s.len() as int } else { 20 + n },
        }
    }
}

/// The bytes of a frame followed by anything: a frame reader takes exactly the frame's bytes,
/// they read back as that frame, and what follows is left as it was.
pub proof fn law_frame_extent_of_frame_then_rest(
    kind: FrameKind,
    request_id: u64,
    payload: Seq<u8>,
    rest: Seq<u8>,
    limits: FrameLimits,
)
    requires
        payload.len() <= limits.max_control_payload_bytes,
    ensures
        frame_extent(frame_bytes(kind, request_id, payload) + rest, limits)
            == frame_bytes(kind, request_id, payload).len(),
        frame_bytes(kind, request_id, payload).len() == 20 + payload.len(),
        (frame_bytes(kind, request_id, payload) + rest).take(20 + payload.len() as int)
            == frame_bytes(kind, request_id, payload),
        (frame_bytes(kind, request_id, payload) + rest).skip(20 + payload.len() as int) == rest,
        frame_outcome((frame_bytes(kind, request_id, payload) + rest).take(20 + payload.len() as int), limits)
            == Ok::<Option<(FrameKind, u64, Seq<u8>)>, TransportError>(Some((kind, request_id, payload))),
{
    let n = payload.len() as u32;
    law_header_round_trip(kind, request_id, n, limits);
    law_frame_round_trip(kind, request_id, payload, limits);
    let f = frame_bytes(kind, request_id, payload);
    let s = f + rest;
    assert(s.subrange(0, 20) =~= header_spec(kind, request_id, n));
    assert(s.take(20 + payload.len() as int) =~= f);
    assert(s.skip(20 + payload.len() as int) =~= rest);
}

/// A prefix of a stream is exactly what a frame reader takes from it when, and only when, it is
/// no longer than the frame's extent in the whole stream: a reader that reports having taken
/// `received` (`frame_extent(received) == received.len()`) took nothing past the frame.
pub proof fn law_frame_extent_bounds_prefixes(s: Seq<u8>, k: int, limits: FrameLimits)
    requires
        0 <= k <= s.len(),
    ensures
        frame_extent(s.take(k), limits) == k <==> k <= frame_extent(s, limits),
{
    if k >= 20 {
        assert(s.take(k).subrange(0, 20) =~= s.subrange(0, 20));
    }
}

/// Reading a stream that holds a frame and then `rest`: if the bytes taken are the stream's
/// first bytes, end where a frame ends (as `read_frame_traced` ensures), and stop short of the
/// frame's end only where the stream ends, then they are exactly that frame's bytes, they read
/// as that frame, and `rest` is left unread.
pub proof fn law_read_takes_one_frame_and_leaves_the_rest(
    kind: FrameKind,
    request_id: u64,
    payload: Seq<u8>,
    rest: Seq<u8>,
    limits: FrameLimits,
    taken: Seq<u8>,
)
    requires
        payload.len() <= limits.max_control_payload_bytes,
        taken == (frame_bytes(kind, request_id, payload) + rest).take(taken.len() as int),
        taken.len() <= (frame_bytes(kind, request_id, payload) + rest).len(),
        frame_extent(taken, limits) == taken.len(),
        taken.len() >= 20 + payload.len() || taken.len() == (frame_bytes(kind, request_id, payload) + rest).len(),
    ensures
        taken == frame_bytes(kind, request_id, payload),
        (frame_bytes(kind, request_id, payload) + rest).skip(taken.len() as int) == rest,
        frame_outcome(taken, limits)
            == Ok::<Option<(FrameKind, u64, Seq<u8>)>, TransportError>(Some((kind, request_id, payload))),
{
    let s = frame_bytes(kind, request_id, payload) + rest;
    law_frame_extent_of_frame_then_rest(kind, request_id, payload, rest, limits);
    law_frame_extent_bounds_prefixes(s, taken.len() as int, limits);
}

/// The kind, request id and payload of a read frame.
pub open spec fn frame_result_view(r: Result<Option<Frame>, TransportError>)
    -> Result<Option<(FrameKind, u64, Seq<u8>)>, TransportError>
{
    match r {
        Err(e) => Err(e),
        Ok(None) => Ok(None),
        Ok(Some(f)) => Ok(Some((f.kind, f.request_id.0, f.payload@))),
    }
}

/// Decides what the bytes received for one frame give (see `frame_outcome`).
pub fn decide_frame(received: &[u8], limits: FrameLimits) -> (r: Result<Option<Frame>, TransportError>)
    ensures
        frame_result_view(r) == frame_outcome(received@, limits),
{
    let n = received.len();
    if n == 0 {
        return Ok(None);
    }
    if n < CONTROL_FRAME_HEADER_BYTES {
        return Err(TransportError::TruncatedHeader { received: n });
    }
    let header = slice_subrange(received, 0, CONTROL_FRAME_HEADER_BYTES);
    let (kind, request_id, len) = match decode_header(header, limits) {
        Err(e) => {
            return Err(e);
        },
        Ok(d) => d,
    };
    let available = n - CONTROL_FRAME_HEADER_BYTES;
    if available < len as usize {
        return Err(TransportError::TruncatedPayload { expected: len, received: available as u32 });
    }
    let payload = slice_to_vec(slice_subrange(received, CONTROL_FRAME_HEADER_BYTES, CONTROL_FRAME_HEADER_BYTES + len as usize));
    Ok(Some(Frame::new(kind, request_id, payload)))
}

/// Reads up to `wanted` bytes, stopping early only at the end of the stream: the bytes
/// received. An interrupted read is retried (at most `u64::MAX` times in a row).
fn read_up_to<R: std::io::Read>(reader: &mut R, wanted: usize) -> (r: Result<Vec<u8>, TransportError>)
    ensures
        r matches Ok(bs) ==> bs@.len() <= wanted,
        r matches Err(e) ==> e is Io,
{
    if wanted == 0 {
        return Ok(Vec::new());
    }
    let mut buffer: Vec<u8> = vec![0u8; wanted];
    let mut received: usize = 0;
    let mut interrupts: u64 = 0;
    while received < wanted
        invariant
            buffer@.len() == wanted,
            received <= wanted,
        decreases wanted - received, u64::MAX - interrupts,
    {
        match read_into(reader, &mut buffer, received) {
            Ok(0) => {
                buffer.truncate(received);
                return Ok(buffer);
            },
            Ok(count) => {
                // A reader may not report more than the space offered; a count past it is
                // taken as filling the space.
                if count > wanted - received {
                    received = wanted;
                } else {
                    received = received + count;
                }
                interrupts = 0;
            },
            Err(e) => {
                if !is_interrupted(&e) || interrupts == u64::MAX {
                    return Err(TransportError::Io(e));
                }
                interrupts = interrupts + 1;
            },
        }
    }
    Ok(buffer)
}

/// Reads a frame header: 20 bytes, or the fewer bytes that came before the end of the stream.
fn read_header<R: std::io::Read>(reader: &mut R) -> (r: Result<Vec<u8>, TransportError>)
    ensures
        r matches Ok(h) ==> h@.len() <= CONTROL_FRAME_HEADER_BYTES,
        r matches Err(e) ==> e is Io,
{
    read_up_to(reader, CONTROL_FRAME_HEADER_BYTES)
}

/// Reads an announced payload: `expected` bytes, or the fewer bytes that came before the end
/// of the stream.
fn read_payload<R: std::io::Read>(reader: &mut R, expected: u32) -> (r: Result<Vec<u8>, TransportError>)
    ensures
        r matches Ok(p) ==> p@.len() <= expected,
        r matches Err(e) ==> e is Io,
{
    read_up_to(reader, expected as usize)
}

/// Reads one frame: the header (fewer bytes only at the end of the stream), then, when the
/// header is admitted, the announced payload (fewer bytes only at the end of the stream), and
/// decides the outcome from the bytes received with `decide_frame`. Returns with the result the
/// bytes taken from the reader, in order. Apart from an I/O failure, the result is
/// `frame_outcome` of those bytes, and they end where the frame ends (`frame_extent`): nothing
/// of a following frame is taken.
pub fn read_frame_traced<R: std::io::Read>(reader: &mut R, limits: FrameLimits)
    -> (out: (Result<Option<Frame>, TransportError>, Ghost<Seq<u8>>))
    ensures
        out.0 matches Err(TransportError::Io(_)) || {
            &&& frame_outcome(out.1@, limits) == frame_result_view(out.0)
            &&& frame_extent(out.1@, limits) == out.1@.len()
        },
        out.0 matches Ok(Some(f)) ==> f.payload@.len() <= limits.max_control_payload_bytes,
{
    let mut received = match read_header(reader) {
        Err(e) => {
            return (Err(e), Ghost(Seq::empty()));
        },
        Ok(h) => h,
    };
    let ghost header = received@;
    if received.len() == CONTROL_FRAME_HEADER_BYTES {
        assert(header.subrange(0, 20) =~= header);
        match decode_header(received.as_slice(), limits) {
            Err(_) => {},
            Ok((_, _, len)) => {
                let mut payload = match read_payload(reader, len) {
                    Err(e) => {
                        return (Err(e), Ghost(header));
                    },
                    Ok(p) => p,
                };
                received.append(&mut payload);
                assert(received@.subrange(0, 20) =~= header);
            },
        }
    }
    let r = decide_frame(received.as_slice(), limits);
    proof {
        assert(frame_outcome(received@, limits) == frame_result_view(r));
        assert(frame_extent(received@, limits) == received@.len());
    }
    (r, Ghost(received@))
}

/// Reads one frame (see `read_frame_traced`, which also returns the bytes taken). Apart from an
/// I/O failure, the result is `frame_outcome` of bytes that end where the frame ends.
pub fn read_frame<R: std::io::Read>(reader: &mut R, limits: FrameLimits) -> (r: Result<Option<Frame>, TransportError>)
    ensures
        r matches Err(TransportError::Io(_)) || exists|received: Seq<u8>|
            #[trigger] frame_outcome(received, limits) == frame_result_view(r)
                && frame_extent(received, limits) == received.len(),
        r matches Ok(Some(f)) ==> f.payload@.len() <= limits.max_control_payload_bytes,
{
    let (r, taken) = read_frame_traced(reader, limits);
    proof {
        if !(r matches Err(TransportError::Io(_))) {
            assert(frame_outcome(taken@, limits) == frame_result_view(r));
        }
    }
    r
}

/// A written header reads back as the frame it was written for.
pub proof fn law_header_round_trip(kind: FrameKind, request_id: u64, payload_len: u32, limits: FrameLimits)
    requires
        payload_len <= limits.max_control_payload_bytes,
    ensures
        header_spec(kind, request_id, payload_len).len() == CONTROL_FRAME_HEADER_BYTES,
        header_decision(header_spec(kind, request_id, payload_len), limits)
            == Ok::<(FrameKind, u64, u32), TransportError>((kind, request_id, payload_len)),
{
    let h = header_spec(kind, request_id, payload_len);
    assert(h.subrange(0, 4) =~= frame_magic());
    assert(h.subrange(4, 6) =~= le16(1));
    assert(h.subrange(8, 16) =~= le64(request_id));
    assert(h.subrange(16, 20) =~= le32(payload_len));
    lemma_read_encoded(h, 4, 1, 0, 0);
    lemma_read_encoded(h, 8, 0, 0, request_id);
    lemma_read_encoded(h, 16, 0, payload_len, 0);
}

/// `Display` of an I/O error: the operating system's description, which nothing here fixes.
#[verifier::external_body]
pub(crate) fn io_error_text(e: &std::io::Error) -> (s: String) {
    e.to_string()
}

/// The diagnostic text of a transport error; for an I/O failure, the text before the system's description.
pub open spec fn transport_error_text(e: TransportError) -> Seq<char> {
    match e {
        TransportError::Io(error) => "transport I/O error: "@ ,
        TransportError::BadMagic(actual) => "invalid control-frame magic: ["@ + hex2(actual[0]) + ", "@ + hex2(actual[1]) + ", "@ + hex2(actual[2]) + ", "@ + hex2(actual[3]) + "]"@,
        TransportError::UnsupportedFrameVersion { actual, supported } => "unsupported control-frame version "@ + decimal(actual as nat) + "; supported version is "@ + decimal(supported as nat),
        TransportError::UnknownFrameKind(kind) => "unknown control-frame kind "@ + decimal(kind as nat),
        TransportError::UnsupportedFlags(flags) => "unsupported control-frame flags 0x"@ + hex2(flags),
        TransportError::PayloadTooLarge { actual, max } => "control-frame payload contains "@ + decimal(actual as nat) + " bytes; limit is "@ + decimal(max as nat),
        TransportError::TruncatedHeader { received } => "truncated control-frame header: received "@ + decimal(received as nat) + " of 20 bytes"@,
        TransportError::TruncatedPayload { expected, received } => "truncated control-frame payload: received "@ + decimal(received as nat) + " of "@ + decimal(expected as nat) + " bytes"@,
    }
}

impl TransportError {
    /// The diagnostic text of the error.
    pub fn message(&self) -> (m: String)
        ensures
            !(*self is Io) ==> m@ == transport_error_text(*self),
            *self is Io ==> m@.len() >= transport_error_text(*self).len()
                && m@.subrange(0, transport_error_text(*self).len() as int) == transport_error_text(*self),
    {
        let mut m = String::new();
        match self {
            TransportError::Io(error) => {
                push_text(&mut m, "transport I/O error: ");
                let ghost before = m@;
                let detail = io_error_text(error);
                push_text(&mut m, detail.as_str());
                assert(m@.subrange(0, before.len() as int) =~= before);
            },
            TransportError::BadMagic(actual) => {
                push_text(&mut m, "invalid control-frame magic: [");
                push_hex2(&mut m, actual[0]);
                push_text(&mut m, ", ");
                push_hex2(&mut m, actual[1]);
                push_text(&mut m, ", ");
                push_hex2(&mut m, actual[2]);
                push_text(&mut m, ", ");
                push_hex2(&mut m, actual[3]);
                push_text(&mut m, "]");
            },
            TransportError::UnsupportedFrameVersion { actual, supported } => {
                push_text(&mut m, "unsupported control-frame version ");
                push_decimal(&mut m, *actual as u64);
                push_text(&mut m, "; supported version is ");
                push_decimal(&mut m, *supported as u64);
            },
            TransportError::UnknownFrameKind(kind) => {
                push_text(&mut m, "unknown control-frame kind ");
                push_decimal(&mut m, *kind as u64);
            },
            TransportError::UnsupportedFlags(flags) => {
                push_text(&mut m, "unsupported control-frame flags 0x");
                push_hex2(&mut m, *flags);
            },
            TransportError::PayloadTooLarge { actual, max } => {
                push_text(&mut m, "control-frame payload contains ");
                push_decimal(&mut m, *actual as u64);
                push_text(&mut m, " bytes; limit is ");
                push_decimal(&mut m, *max as u64);
            },
            TransportError::TruncatedHeader { received } => {
                push_text(&mut m, "truncated control-frame header: received ");
                push_decimal(&mut m, *received as u64);
                push_text(&mut m, " of 20 bytes");
            },
            TransportError::TruncatedPayload { expected, received } => {
                push_text(&mut m, "truncated control-frame payload: received ");
                push_decimal(&mut m, *received as u64);
                push_text(&mut m, " of ");
                push_decimal(&mut m, *expected as u64);
                push_text(&mut m, " bytes");
            },
        }
        proof {
            if !(*self is Io) {
                assert(m@ =~= transport_error_text(*self));
            }
        }
        m
    }
}

} // verus!
