use std::cell::Cell;
use std::rc::Rc;

use office_document::engine::{DocumentEngine, EngineError, SemanticObservation};
use office_document::protocol::{
    DocumentCapability, DocumentRevision, DocumentTransaction, EngineCapabilities, ProtocolError, ProtocolVersion,
    TextEdit, TextOffset, TransactionApplied, TransactionLimits,
};
use office_document::session::{DocumentSession, ObservationFreshnessError};

fn test_limits() -> TransactionLimits {
    TransactionLimits::new(16, 1024, 4096)
}

/// A test engine whose open failure and revision the test can still reach after the session
/// has taken ownership of it.
#[derive(Default)]
struct TestEngine {
    text: Option<String>,
    revision: Rc<Cell<DocumentRevision>>,
    fail_next_open: Rc<Cell<bool>>,
}

impl DocumentEngine for TestEngine {
    fn capabilities(&self) -> EngineCapabilities {
        EngineCapabilities {
            protocol: ProtocolVersion::v0(),
            capabilities: vec![DocumentCapability::Read, DocumentCapability::EditText, DocumentCapability::SemanticSnapshot],
        }
    }

    fn revision(&self) -> Result<DocumentRevision, EngineError> {
        self.text.as_ref().ok_or(EngineError::NotOpen)?;
        Ok(self.revision.get())
    }

    fn open_text_fixture(&mut self, text: String) -> Result<DocumentRevision, EngineError> {
        if self.fail_next_open.get() {
            self.fail_next_open.set(false);
            return Err(EngineError::Internal(String::from("injected open failure")));
        }
        self.text = Some(text);
        self.revision.set(DocumentRevision::initial());
        Ok(self.revision.get())
    }

    fn semantic_text(&self) -> Result<SemanticObservation<String>, EngineError> {
        let value = self.text.clone().ok_or(EngineError::NotOpen)?;
        Ok(SemanticObservation::new(self.revision.get(), value))
    }

    fn apply_transaction(&mut self, transaction: DocumentTransaction) -> Result<TransactionApplied, EngineError> {
        if transaction.expected_revision != self.revision.get() {
            return Err(ProtocolError::RevisionConflict { expected: transaction.expected_revision, actual: self.revision.get() }.into());
        }
        let text = self.text.as_mut().ok_or(EngineError::NotOpen)?;
        transaction.validate_against(text, test_limits())?;
        let mut edits = transaction.edits;
        edits.sort_by_key(|edit| edit.start_utf8);
        for edit in edits.into_iter().rev() {
            let range = edit.byte_range(text)?;
            text.replace_range(range, &edit.replacement);
        }
        let previous_revision = self.revision.get();
        self.revision.set(previous_revision.next());
        Ok(TransactionApplied { previous_revision, new_revision: self.revision.get() })
    }
}

fn replace_first_character(expected_revision: DocumentRevision) -> DocumentTransaction {
    DocumentTransaction {
        expected_revision,
        edits: vec![TextEdit { start_utf8: TextOffset::new(0), end_utf8: TextOffset::new(1), replacement: String::from("A") }],
    }
}

#[test]
fn semantic_read_is_stamped_with_session_authority_and_revision() {
    let mut session = DocumentSession::new(TestEngine::default());
    assert_eq!(session.known_authority_generation(), None);
    session.open_text_fixture(String::from("abc")).unwrap();
    let generation = session.known_authority_generation().unwrap();

    let observation = session.semantic_text().unwrap();

    assert_eq!(observation.authority_generation(), generation);
    assert_eq!(observation.revision(), DocumentRevision::initial());
    assert_eq!(observation.value().as_str(), "abc");
    assert_eq!(session.require_current(&observation), Ok(()));

    let length = observation.map(|text| text.len());
    assert_eq!(length.authority_generation(), generation);
    assert_eq!(length.revision(), DocumentRevision::initial());
    assert_eq!(*length.value(), 3);
    assert_eq!(session.require_current(&length), Ok(()));
}

#[test]
fn retained_observation_is_rejected_after_authoritative_mutation() {
    let mut session = DocumentSession::new(TestEngine::default());
    session.open_text_fixture(String::from("abc")).unwrap();
    let generation = session.known_authority_generation().unwrap();
    let old = session.semantic_text().unwrap();

    session.apply_transaction(replace_first_character(DocumentRevision::initial())).unwrap();

    assert_eq!(session.known_authority_generation(), Some(generation));
    assert_eq!(
        session.require_current(&old),
        Err(ObservationFreshnessError::Stale { observed: DocumentRevision::initial(), current: DocumentRevision::new(1) })
    );

    let current = session.semantic_text().unwrap();
    assert_eq!(current.authority_generation(), generation);
    assert_eq!(current.revision(), DocumentRevision::new(1));
    assert_eq!(current.value().as_str(), "Abc");
    assert_eq!(session.require_current(&current), Ok(()));
}

#[test]
fn old_r0_observation_is_rejected_after_successful_reopen_at_r0() {
    let mut session = DocumentSession::new(TestEngine::default());
    session.open_text_fixture(String::from("first")).unwrap();
    let first_generation = session.known_authority_generation().unwrap();
    let old = session.semantic_text().unwrap();
    assert_eq!(old.revision(), DocumentRevision::initial());

    let reopened_revision = session.open_text_fixture(String::from("second")).unwrap();
    let second_generation = session.known_authority_generation().unwrap();

    assert_eq!(reopened_revision, DocumentRevision::initial());
    assert_ne!(first_generation, second_generation);
    assert_eq!(
        session.require_current(&old),
        Err(ObservationFreshnessError::AuthorityChanged { observed: first_generation, current: second_generation })
    );

    let current = session.semantic_text().unwrap();
    assert_eq!(current.authority_generation(), second_generation);
    assert_eq!(current.revision(), DocumentRevision::initial());
    assert_eq!(current.value().as_str(), "second");
    assert_eq!(session.require_current(&current), Ok(()));
}

#[test]
fn rejected_transaction_does_not_invalidate_current_observation() {
    let mut session = DocumentSession::new(TestEngine::default());
    session.open_text_fixture(String::from("abc")).unwrap();
    let generation = session.known_authority_generation().unwrap();
    let observation = session.semantic_text().unwrap();

    let error = session
        .apply_transaction(DocumentTransaction { expected_revision: DocumentRevision::new(99), edits: Vec::new() })
        .unwrap_err();

    assert!(matches!(error, EngineError::Protocol(ProtocolError::RevisionConflict { .. })));
    assert_eq!(session.known_revision(), Some(DocumentRevision::initial()));
    assert_eq!(session.known_authority_generation(), Some(generation));
    assert_eq!(session.require_current(&observation), Ok(()));
}

#[test]
fn failed_open_does_not_replace_current_authority() {
    let fail_next_open = Rc::new(Cell::new(false));
    let engine = TestEngine { fail_next_open: fail_next_open.clone(), ..TestEngine::default() };
    let mut session = DocumentSession::new(engine);
    session.open_text_fixture(String::from("abc")).unwrap();
    let generation = session.known_authority_generation().unwrap();
    let observation = session.semantic_text().unwrap();
    fail_next_open.set(true);

    let error = session.open_text_fixture(String::from("replacement")).unwrap_err();

    assert!(matches!(error, EngineError::Internal(message) if message.contains("injected")));
    assert_eq!(session.known_revision(), Some(DocumentRevision::initial()));
    assert_eq!(session.known_authority_generation(), Some(generation));
    assert_eq!(session.require_current(&observation), Ok(()));
    assert_eq!(session.semantic_text().unwrap().value().as_str(), "abc");
}

#[test]
fn semantic_read_rejects_engine_session_revision_disagreement() {
    let revision = Rc::new(Cell::new(DocumentRevision::initial()));
    let engine = TestEngine { revision: revision.clone(), ..TestEngine::default() };
    let mut session = DocumentSession::new(engine);
    session.open_text_fixture(String::from("abc")).unwrap();
    revision.set(DocumentRevision::new(5));

    let error = session.semantic_text().unwrap_err();

    assert!(matches!(error, EngineError::Internal(message) if message.contains("disagrees")));
}

#[test]
fn no_document_means_no_current_observation_authority() {
    let session = DocumentSession::new(TestEngine::default());
    assert_eq!(session.known_revision(), None);
    assert!(matches!(session.semantic_text(), Err(EngineError::NotOpen)));
}

#[test]
fn revision_disagreement_names_both_revisions() {
    let revision = Rc::new(Cell::new(DocumentRevision::initial()));
    let engine = TestEngine { revision: revision.clone(), ..TestEngine::default() };
    let mut session = DocumentSession::new(engine);
    session.open_text_fixture(String::from("abc")).unwrap();
    revision.set(DocumentRevision::new(17));

    match session.semantic_text() {
        Err(EngineError::Internal(message)) => {
            assert_eq!(message, "engine semantic revision 17 disagrees with session revision 0");
        }
        _ => panic!("expected a revision disagreement"),
    }
}
