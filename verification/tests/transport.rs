use std::io::{self, Cursor, Read, Write};

use office_document::protocol::RequestId;
use office_document::transport::{
    decide_frame, decode_header, encode_frame, encode_header, read_frame, write_frame, Frame, FrameKind, FrameLimits, TransportError,
    CONTROL_FRAME_HEADER_BYTES, CONTROL_FRAME_VERSION,
};

const FRAME_MAGIC: [u8; 4] = *b"DETR";

fn test_limits() -> FrameLimits {
    FrameLimits::new(32)
}

struct ChunkedReader {
    inner: Cursor<Vec<u8>>,
    max_chunk: usize,
}

impl ChunkedReader {
    fn new(bytes: Vec<u8>, max_chunk: usize) -> Self {
        Self { inner: Cursor::new(bytes), max_chunk }
    }
}

impl Read for ChunkedReader {
    fn read(&mut self, buffer: &mut [u8]) -> io::Result<usize> {
        let chunk = buffer.len().min(self.max_chunk);
        self.inner.read(&mut buffer[..chunk])
    }
}

struct ChunkedWriter {
    bytes: Vec<u8>,
    max_chunk: usize,
    writes: usize,
}

impl ChunkedWriter {
    fn new(max_chunk: usize) -> Self {
        Self { bytes: Vec::new(), max_chunk, writes: 0 }
    }
}

impl Write for ChunkedWriter {
    fn write(&mut self, buffer: &[u8]) -> io::Result<usize> {
        if buffer.is_empty() {
            return Ok(0);
        }
        let chunk = buffer.len().min(self.max_chunk);
        self.bytes.extend_from_slice(&buffer[..chunk]);
        self.writes += 1;
        Ok(chunk)
    }

    fn flush(&mut self) -> io::Result<()> {
        Ok(())
    }
}

fn raw_header(kind: u8, version: u16, flags: u8, request_id: u64, payload_len: u32) -> Vec<u8> {
    let mut header = [0_u8; CONTROL_FRAME_HEADER_BYTES];
    header[0..4].copy_from_slice(&FRAME_MAGIC);
    header[4..6].copy_from_slice(&version.to_le_bytes());
    header[6] = kind;
    header[7] = flags;
    header[8..16].copy_from_slice(&request_id.to_le_bytes());
    header[16..20].copy_from_slice(&payload_len.to_le_bytes());
    header.to_vec()
}

#[test]
fn request_round_trip_survives_short_reads_and_writes() {
    let frame = Frame::new(FrameKind::Request, RequestId::new(42), b"control-payload".to_vec());
    let mut writer = ChunkedWriter::new(2);
    write_frame(&mut writer, &frame, test_limits()).unwrap();
    assert!(writer.writes > 2);

    let mut reader = ChunkedReader::new(writer.bytes, 3);
    let decoded = read_frame(&mut reader, test_limits()).unwrap().unwrap();
    assert_eq!(decoded, frame);
    assert!(read_frame(&mut reader, test_limits()).unwrap().is_none());
}

#[test]
fn response_preserves_request_correlation() {
    let frame = Frame::new(FrameKind::Response, RequestId::new(9001), Vec::new());
    let mut bytes = Vec::new();
    write_frame(&mut bytes, &frame, test_limits()).unwrap();
    let decoded = read_frame(&mut Cursor::new(bytes), test_limits()).unwrap().unwrap();

    assert_eq!(decoded.kind, FrameKind::Response);
    assert_eq!(decoded.request_id, RequestId::new(9001));
    assert!(decoded.payload.is_empty());
}

#[test]
fn clean_eof_before_header_is_not_a_protocol_error() {
    assert!(read_frame(&mut Cursor::new(Vec::<u8>::new()), test_limits()).unwrap().is_none());
}

#[test]
fn partial_header_is_typed_truncation() {
    let bytes = FRAME_MAGIC.to_vec();
    let error = read_frame(&mut Cursor::new(bytes), test_limits()).unwrap_err();
    assert!(matches!(error, TransportError::TruncatedHeader { received: 4 }));
}

#[test]
fn partial_payload_is_typed_truncation() {
    let mut bytes = raw_header(1, CONTROL_FRAME_VERSION, 0, 7, 3);
    bytes.extend_from_slice(b"ab");
    let error = read_frame(&mut Cursor::new(bytes), test_limits()).unwrap_err();
    assert!(matches!(error, TransportError::TruncatedPayload { expected: 3, received: 2 }));
}

#[test]
fn oversized_announced_payload_is_rejected_before_payload_read() {
    let bytes = raw_header(1, CONTROL_FRAME_VERSION, 0, 7, 33);
    let error = read_frame(&mut Cursor::new(bytes), test_limits()).unwrap_err();
    assert!(matches!(error, TransportError::PayloadTooLarge { actual: 33, max: 32 }));
}

#[test]
fn writer_rejects_oversized_payload() {
    let frame = Frame::new(FrameKind::Request, RequestId::new(1), vec![0_u8; 33]);
    let error = write_frame(&mut Vec::new(), &frame, test_limits()).unwrap_err();
    assert!(matches!(error, TransportError::PayloadTooLarge { actual: 33, max: 32 }));
}

#[test]
fn bad_magic_is_rejected() {
    let mut bytes = raw_header(1, CONTROL_FRAME_VERSION, 0, 1, 0);
    bytes[0] = b'X';
    let error = read_frame(&mut Cursor::new(bytes), test_limits()).unwrap_err();
    assert!(matches!(error, TransportError::BadMagic(_)));
}

#[test]
fn unsupported_version_is_rejected() {
    let bytes = raw_header(1, CONTROL_FRAME_VERSION + 1, 0, 1, 0);
    let error = read_frame(&mut Cursor::new(bytes), test_limits()).unwrap_err();
    assert!(matches!(error, TransportError::UnsupportedFrameVersion { .. }));
}

#[test]
fn unknown_kind_is_rejected() {
    let bytes = raw_header(99, CONTROL_FRAME_VERSION, 0, 1, 0);
    let error = read_frame(&mut Cursor::new(bytes), test_limits()).unwrap_err();
    assert!(matches!(error, TransportError::UnknownFrameKind(99)));
}

#[test]
fn unsupported_flags_are_rejected() {
    let bytes = raw_header(1, CONTROL_FRAME_VERSION, 1, 1, 0);
    let error = read_frame(&mut Cursor::new(bytes), test_limits()).unwrap_err();
    assert!(matches!(error, TransportError::UnsupportedFlags(1)));
}

#[test]
fn encoded_header_decodes_to_the_same_fields() {
    let header = encode_header(FrameKind::Response, RequestId::new(77), 5);
    assert_eq!(header.len(), CONTROL_FRAME_HEADER_BYTES);
    assert_eq!(&header[0..4], &FRAME_MAGIC);
    let (kind, request_id, payload_len) = decode_header(&header, test_limits()).unwrap();
    assert_eq!(kind, FrameKind::Response);
    assert_eq!(request_id, RequestId::new(77));
    assert_eq!(payload_len, 5);
}

#[test]
fn encoded_header_is_little_endian() {
    let header = encode_header(FrameKind::Request, RequestId::new(0x0102030405060708), 0x0a0b0c0d);
    assert_eq!(header.to_vec(), raw_header(1, CONTROL_FRAME_VERSION, 0, 0x0102030405060708, 0x0a0b0c0d));
}

struct InterruptingReader {
    inner: Cursor<Vec<u8>>,
    interrupt_next: bool,
}

impl Read for InterruptingReader {
    fn read(&mut self, buffer: &mut [u8]) -> io::Result<usize> {
        if self.interrupt_next {
            self.interrupt_next = false;
            return Err(io::Error::new(io::ErrorKind::Interrupted, "signal"));
        }
        self.interrupt_next = true;
        let chunk = buffer.len().min(4);
        self.inner.read(&mut buffer[..chunk])
    }
}

#[test]
fn interrupted_reads_are_retried() {
    let frame = Frame::new(FrameKind::Request, RequestId::new(3), b"retry".to_vec());
    let mut bytes = Vec::new();
    write_frame(&mut bytes, &frame, test_limits()).unwrap();
    let mut reader = InterruptingReader { inner: Cursor::new(bytes), interrupt_next: true };
    assert_eq!(read_frame(&mut reader, test_limits()).unwrap().unwrap(), frame);
}

struct FailingReader;

impl Read for FailingReader {
    fn read(&mut self, _buffer: &mut [u8]) -> io::Result<usize> {
        Err(io::Error::new(io::ErrorKind::BrokenPipe, "gone"))
    }
}

#[test]
fn other_read_errors_are_reported_as_io() {
    assert!(matches!(read_frame(&mut FailingReader, test_limits()), Err(TransportError::Io(_))));
}

#[test]
fn encoded_frame_is_decided_back_and_every_cut_reports_its_counts() {
    let frame = Frame::new(FrameKind::Response, RequestId::new(9), b"abc".to_vec());
    let bytes = encode_frame(&frame, test_limits()).unwrap();
    assert_eq!(bytes.len(), CONTROL_FRAME_HEADER_BYTES + 3);
    assert_eq!(decide_frame(&bytes, test_limits()).unwrap().unwrap(), frame);
    assert!(decide_frame(&[], test_limits()).unwrap().is_none());
    for k in 1..CONTROL_FRAME_HEADER_BYTES {
        assert!(matches!(decide_frame(&bytes[..k], test_limits()), Err(TransportError::TruncatedHeader { received }) if received == k));
    }
    for k in 0..3 {
        let cut = &bytes[..CONTROL_FRAME_HEADER_BYTES + k];
        assert!(matches!(decide_frame(cut, test_limits()),
            Err(TransportError::TruncatedPayload { expected: 3, received }) if received == k as u32));
    }
    let oversized = Frame::new(FrameKind::Request, RequestId::new(1), vec![0u8; 33]);
    assert!(matches!(encode_frame(&oversized, test_limits()), Err(TransportError::PayloadTooLarge { actual: 33, max: 32 })));
}
