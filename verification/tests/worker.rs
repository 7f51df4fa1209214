use std::io::Cursor;

use office_document::mock_engine::MockDocumentEngine;
use office_document::protocol::RequestId;
use office_document::transport::{read_frame, write_frame, Frame, FrameKind};
use office_document::worker::{
    handle_spike_request, r0a_spike_frame_limits, respond_to_frame, run_r0a_stdio_spike, WorkerSpikeError,
    R0A_CAPABILITIES_COMMAND, R0A_SHUTDOWN_COMMAND, R0A_STATUS_INVALID_REQUEST, R0A_STATUS_OK,
};

fn request_bytes(id: u64, payload: Vec<u8>) -> Vec<u8> {
    let mut bytes = Vec::new();
    write_frame(&mut bytes, &Frame::new(FrameKind::Request, RequestId::new(id), payload), r0a_spike_frame_limits()).unwrap();
    bytes
}

#[test]
fn in_memory_capabilities_response_preserves_request_id() {
    let mut input = Cursor::new(request_bytes(41, vec![R0A_CAPABILITIES_COMMAND]));
    let mut output = Vec::new();

    run_r0a_stdio_spike(&mut input, &mut output).unwrap();

    let response = read_frame(&mut Cursor::new(output), r0a_spike_frame_limits()).unwrap().unwrap();
    assert_eq!(response.kind, FrameKind::Response);
    assert_eq!(response.request_id, RequestId::new(41));
    assert_eq!(response.payload[0], R0A_STATUS_OK);
    assert_eq!(response.payload[1], R0A_CAPABILITIES_COMMAND);
}

#[test]
fn shutdown_stops_before_processing_later_frames() {
    let mut input_bytes = request_bytes(1, vec![R0A_SHUTDOWN_COMMAND]);
    input_bytes.extend(request_bytes(2, vec![R0A_CAPABILITIES_COMMAND]));
    let mut input = Cursor::new(input_bytes);
    let mut output = Vec::new();

    run_r0a_stdio_spike(&mut input, &mut output).unwrap();

    let mut responses = Cursor::new(output);
    let response = read_frame(&mut responses, r0a_spike_frame_limits()).unwrap().unwrap();
    assert_eq!(response.request_id, RequestId::new(1));
    assert_eq!(response.payload, vec![R0A_STATUS_OK, R0A_SHUTDOWN_COMMAND]);
    assert!(read_frame(&mut responses, r0a_spike_frame_limits()).unwrap().is_none());
}

#[test]
fn response_frame_from_host_is_rejected() {
    let mut bytes = Vec::new();
    write_frame(&mut bytes, &Frame::new(FrameKind::Response, RequestId::new(7), Vec::new()), r0a_spike_frame_limits()).unwrap();

    let error = run_r0a_stdio_spike(&mut Cursor::new(bytes), &mut Vec::new()).unwrap_err();
    assert!(matches!(error, WorkerSpikeError::UnexpectedFrameKind(FrameKind::Response)));
}

#[test]
fn invalid_command_is_explicit_response_not_worker_crash() {
    let mut input = Cursor::new(request_bytes(9, vec![99]));
    let mut output = Vec::new();

    run_r0a_stdio_spike(&mut input, &mut output).unwrap();

    let response = read_frame(&mut Cursor::new(output), r0a_spike_frame_limits()).unwrap().unwrap();
    assert_eq!(response.request_id, RequestId::new(9));
    assert_eq!(response.payload, vec![R0A_STATUS_INVALID_REQUEST, 99]);
}

#[test]
fn capabilities_response_carries_protocol_version_little_endian() {
    let engine = MockDocumentEngine::default();
    let (payload, stop) = handle_spike_request(&engine, &[R0A_CAPABILITIES_COMMAND]);
    assert_eq!(payload, vec![0, 1, 0, 0, 1, 0]);
    assert!(!stop);
}

#[test]
fn empty_or_long_payload_is_an_invalid_request() {
    let engine = MockDocumentEngine::default();
    assert_eq!(handle_spike_request(&engine, &[]), (vec![R0A_STATUS_INVALID_REQUEST, 0], false));
    assert_eq!(handle_spike_request(&engine, &[1, 2]), (vec![R0A_STATUS_INVALID_REQUEST, 0], false));
}

#[test]
fn respond_to_frame_correlates_and_stops_on_shutdown() {
    let engine = MockDocumentEngine::default();
    let frame = Frame::new(FrameKind::Request, RequestId::new(5), vec![R0A_SHUTDOWN_COMMAND]);
    let (response, stop) = respond_to_frame(&engine, &frame).unwrap();
    assert_eq!(response.request_id, RequestId::new(5));
    assert_eq!(response.kind, FrameKind::Response);
    assert!(stop);
}

#[test]
fn worker_errors_render_their_cause() {
    assert_eq!(
        WorkerSpikeError::UnexpectedFrameKind(FrameKind::Response).message(),
        "worker received unexpected Response frame"
    );
    assert_eq!(
        WorkerSpikeError::Transport(office_document::transport::TransportError::UnknownFrameKind(9)).message(),
        "worker transport error: unknown control-frame kind 9"
    );
}
