use office_document::engine::{DocumentEngine, EngineError, SemanticObservation};
use office_document::mock_engine::MockDocumentEngine;
use office_document::protocol::{DocumentRevision, DocumentTransaction, ProtocolError, TextEdit, TextOffset};

fn offset(value: u64) -> TextOffset {
    TextOffset::new(value)
}

#[test]
fn semantic_observation_map_preserves_revision() {
    let observed = SemanticObservation::new(DocumentRevision::new(7), String::from("abc"));
    let length = observed.map(|text| text.len());

    assert_eq!(length.revision(), DocumentRevision::new(7));
    assert_eq!(*length.value(), 3);
}

#[test]
fn transaction_advances_revision_atomically() {
    let mut engine = MockDocumentEngine::default();
    engine.open_text_fixture("hello world".into()).unwrap();

    let result = engine
        .apply_transaction(DocumentTransaction {
            expected_revision: DocumentRevision::initial(),
            edits: vec![TextEdit { start_utf8: offset(6), end_utf8: offset(11), replacement: "editor".into() }],
        })
        .unwrap();

    assert_eq!(result.new_revision, DocumentRevision::new(1));
    let observation = engine.semantic_text().unwrap();
    assert_eq!(observation.revision(), DocumentRevision::new(1));
    assert_eq!(observation.value(), "hello editor");
}

#[test]
fn semantic_observation_is_stamped_with_exact_read_revision() {
    let mut engine = MockDocumentEngine::default();
    engine.open_text_fixture("abc".into()).unwrap();

    let initial = engine.semantic_text().unwrap();
    assert_eq!(initial.revision(), DocumentRevision::initial());
    assert_eq!(initial.value(), "abc");

    engine
        .apply_transaction(DocumentTransaction {
            expected_revision: DocumentRevision::initial(),
            edits: vec![TextEdit { start_utf8: offset(0), end_utf8: offset(1), replacement: "A".into() }],
        })
        .unwrap();

    let current = engine.semantic_text().unwrap();
    assert_eq!(current.revision(), DocumentRevision::new(1));
    assert_eq!(current.value(), "Abc");
    assert_eq!(initial.revision(), DocumentRevision::initial());
    assert_eq!(initial.value(), "abc");
}

#[test]
fn stale_transaction_is_rejected() {
    let mut engine = MockDocumentEngine::default();
    engine.open_text_fixture("abc".into()).unwrap();
    engine
        .apply_transaction(DocumentTransaction {
            expected_revision: DocumentRevision::initial(),
            edits: vec![TextEdit { start_utf8: offset(0), end_utf8: offset(1), replacement: "A".into() }],
        })
        .unwrap();

    let error = engine
        .apply_transaction(DocumentTransaction { expected_revision: DocumentRevision::initial(), edits: Vec::new() })
        .unwrap_err();

    assert!(matches!(error, EngineError::Protocol(ProtocolError::RevisionConflict { .. })));
}

#[test]
fn invalid_multi_edit_transaction_changes_nothing() {
    let mut engine = MockDocumentEngine::default();
    engine.open_text_fixture("abcdef".into()).unwrap();

    let error = engine
        .apply_transaction(DocumentTransaction {
            expected_revision: DocumentRevision::initial(),
            edits: vec![
                TextEdit { start_utf8: offset(0), end_utf8: offset(2), replacement: "X".into() },
                TextEdit { start_utf8: offset(1), end_utf8: offset(3), replacement: "Y".into() },
            ],
        })
        .unwrap_err();

    assert!(matches!(error, EngineError::Protocol(ProtocolError::InvalidRange)));
    let observation = engine.semantic_text().unwrap();
    assert_eq!(observation.value(), "abcdef");
    assert_eq!(observation.revision(), DocumentRevision::initial());
    assert_eq!(engine.revision().unwrap(), DocumentRevision::initial());
}

#[test]
fn unopened_engine_reports_not_open() {
    let engine = MockDocumentEngine::default();
    assert!(matches!(engine.revision(), Err(EngineError::NotOpen)));
    assert!(matches!(engine.semantic_text(), Err(EngineError::NotOpen)));
}

#[test]
fn edits_apply_right_to_left_in_one_revision() {
    let mut engine = MockDocumentEngine::default();
    engine.open_text_fixture("abcdef".into()).unwrap();
    let applied = engine
        .apply_transaction(DocumentTransaction {
            expected_revision: DocumentRevision::initial(),
            edits: vec![
                TextEdit { start_utf8: offset(4), end_utf8: offset(6), replacement: "XYZ".into() },
                TextEdit { start_utf8: offset(0), end_utf8: offset(1), replacement: "".into() },
            ],
        })
        .unwrap();
    assert_eq!(applied.previous_revision, DocumentRevision::initial());
    assert_eq!(applied.new_revision, DocumentRevision::new(1));
    assert_eq!(engine.semantic_text().unwrap().value(), "bcdXYZ");
}
