use office_document::anchors::{AnchorMutationError, DocumentLineageId, ParagraphAnchorTable};
use office_document::backed_pool::{InMemoryRenderBufferBackingError, RenderBufferAccessError, RenderRasterBufferAccessError};
use office_document::extension::FeatureId;
use office_document::feature_host::{FeatureError, HostRegistrationError, HostStartError, HostState};
use office_document::file_backing::ExternalFileRenderBackingError;
use office_document::protocol::{DocumentRevision, ProtocolError};
use office_document::reconciliation::{AnchorAllocationError, ReconciliationError};
use office_document::registry::RegistrationError;
use office_document::render_pool::{
    RenderBufferAcquireError, RenderBufferId, RenderBufferPoolLimitsError, RenderBufferSlotState,
    RenderBufferTransitionError, RenderLeaseGeneration, RenderLeaseId, RenderRasterBindingError,
    RenderRasterDescriptorError, UnsupportedRenderPixelFormat,
};
use office_document::mock_engine::MockDocumentEngine;
use office_document::session::{DocumentSession, ObservationFreshnessError};
use office_document::snapshot::{AnchorRebindError, AnchorSnapshotCodecError};
use office_document::transport::TransportError;

fn feature_id(value: &str) -> FeatureId {
    FeatureId::new(value).unwrap()
}

#[test]
fn protocol_errors_render_counts_and_revisions() {
    assert_eq!(ProtocolError::TooManyEdits { actual: 5, max: 4 }.message(), "transaction contains 5 edits; limit is 4");
    assert_eq!(
        ProtocolError::RevisionConflict { expected: DocumentRevision::new(0), actual: DocumentRevision::new(12) }.message(),
        "revision conflict: expected 0, actual 12"
    );
    assert_eq!(ProtocolError::InvalidRange.message(), "invalid text range");
}

#[test]
fn identifier_error_quotes_the_refused_value() {
    let error = FeatureId::new("Bad \"Id\"").unwrap_err();
    assert_eq!(
        error.message(),
        "invalid identifier \"Bad \\\"Id\\\"\": use 1-128 lowercase ASCII letters, digits, '.', '-' or '_' and start with a letter or digit"
    );
}

#[test]
fn anchor_errors_render_indices_lineages_and_flags() {
    assert_eq!(
        AnchorMutationError::ParagraphOutOfBounds { index: 7, paragraph_count: 3 }.message(),
        "paragraph index 7 is outside paragraph count 3"
    );
    assert_eq!(AnchorSnapshotCodecError::UnsupportedFlags(0x1a2).message(), "unsupported anchor snapshot flags 0x01a2");
    let expected = DocumentLineageId::from_bytes([0x22; 16]);
    let actual = DocumentLineageId::from_bytes([0xab; 16]);
    assert_eq!(expected.text(), "22222222222222222222222222222222");
    assert_eq!(
        AnchorRebindError::LineageMismatch { expected, actual }.message(),
        "anchor snapshot lineage abababababababababababababababab does not match expected lineage 22222222222222222222222222222222"
    );
    let table = ParagraphAnchorTable::from_projection(DocumentLineageId::from_bytes([1; 16]), vec![String::from("p")]).unwrap();
    assert_eq!(table.paragraphs()[0].id().text(), "01010101010101010101010101010101:1");
}

#[test]
fn session_and_reconciliation_errors_render_generations() {
    assert_eq!(
        ObservationFreshnessError::Stale { observed: DocumentRevision::new(1), current: DocumentRevision::new(4) }.message(),
        "semantic observation is stale: observed revision 1, current revision 4"
    );
    assert_eq!(AnchorAllocationError::SequenceExhausted.message(), "logical anchor sequence exhausted");
    let mut session = DocumentSession::new(MockDocumentEngine::default());
    session.open_text_fixture(String::from("a")).unwrap();
    let first = session.current_authority_stamp().unwrap();
    session.open_text_fixture(String::from("a")).unwrap();
    let second = session.current_authority_stamp().unwrap();
    assert_eq!(
        ReconciliationError::CandidateAuthorityMismatch { expected: second, actual: first }.message(),
        "reconciliation candidate authority AuthorityGeneration(1)/0 does not match target AuthorityGeneration(2)/0"
    );
}

#[test]
fn feature_errors_render_ids_and_states() {
    assert_eq!(
        RegistrationError::DuplicateFeature(feature_id("feature.a")).message(),
        "feature feature.a is already registered"
    );
    assert_eq!(
        HostRegistrationError::InvalidState(HostState::Running).message(),
        "cannot register bundled feature while host is Running"
    );
    assert_eq!(
        HostRegistrationError::Catalogue(RegistrationError::DuplicateFeature(feature_id("x.y"))).message(),
        "feature x.y is already registered"
    );
    let activation = HostStartError::Activation {
        feature: feature_id("feature.b"),
        error: FeatureError::new("activation failed"),
        rollback_failures: Vec::new(),
    };
    assert_eq!(activation.message(), "feature feature.b failed activation: activation failed; 0 rollback cleanup failure(s)");
}

#[test]
fn render_errors_render_buffers_generations_and_states() {
    assert_eq!(RenderBufferPoolLimitsError::ZeroSlots.message(), "render pool slot budget must be nonzero");
    assert_eq!(UnsupportedRenderPixelFormat(3).message(), "unsupported render pixel format 3");
    assert_eq!(
        RenderRasterDescriptorError::StrideTooSmall { stride: 1023, minimum: 1024 }.message(),
        "render raster stride 1023 is smaller than minimum row width 1024"
    );
    assert_eq!(
        RenderRasterBindingError::LeaseGenerationMismatch { declared: 3, actual: RenderLeaseGeneration(4) }.message(),
        "render descriptor names lease generation 3, live generation is 4"
    );
    assert_eq!(
        RenderBufferAcquireError::RequestExceedsSlotLimit { requested: 129, limit: 128 }.message(),
        "render lease requests 129 bytes, exceeding slot limit 128"
    );
    let stale = RenderBufferTransitionError::StaleLease {
        buffer_id: RenderBufferId(0),
        expected_generation: RenderLeaseGeneration(2),
        actual_generation: RenderLeaseGeneration(1),
    };
    assert_eq!(stale.message(), "stale render lease for buffer 0: expected generation 2, got 1");
    assert_eq!(
        RenderBufferTransitionError::WrongState { expected: RenderBufferSlotState::Leased, actual: RenderBufferSlotState::Ready }.message(),
        "render buffer is in state Ready, expected Leased"
    );
    assert_eq!(RenderBufferAccessError::Transition(stale).message(), stale.message());
    assert_eq!(
        RenderRasterBufferAccessError::Buffer(RenderBufferAccessError::MissingBacking { buffer_id: RenderBufferId(9) }).message(),
        "render buffer 9 has no prepared host backing"
    );
    assert_eq!(
        InMemoryRenderBufferBackingError::ByteAllocationFailed { buffer_id: RenderBufferId(1), capacity: 64 }.message(),
        "could not allocate 64 bytes for render buffer 1"
    );
}

#[test]
fn transport_and_file_errors_render_bytes_and_prefix_io_failures() {
    assert_eq!(TransportError::BadMagic(*b"XETR").message(), "invalid control-frame magic: [58, 45, 54, 52]");
    assert_eq!(TransportError::UnsupportedFlags(1).message(), "unsupported control-frame flags 0x01");
    assert_eq!(TransportError::TruncatedHeader { received: 4 }.message(), "truncated control-frame header: received 4 of 20 bytes");
    let io = TransportError::Io(std::io::Error::new(std::io::ErrorKind::Other, "pipe closed"));
    assert_eq!(io.message(), "transport I/O error: pipe closed");
    let lease = RenderLeaseId { buffer_id: RenderBufferId(2), generation: RenderLeaseGeneration(5) };
    let other = RenderLeaseId { buffer_id: RenderBufferId(2), generation: RenderLeaseGeneration(6) };
    assert_eq!(
        ExternalFileRenderBackingError::PreparedLeaseMismatch { prepared: lease, live: other }.message(),
        "prepared external backing belongs to buffer 2 generation 5, live lease is buffer 2 generation 6"
    );
}
