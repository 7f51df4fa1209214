use office_document::app_core::{common_prefix_bytes, common_suffix_bytes, replacement_transaction, replacement_window, AppCore};
use office_document::engine::{DocumentEngine, EngineError, SemanticObservation};
use office_document::protocol::{
    DocumentCapability, DocumentRevision, DocumentTransaction, EngineCapabilities, ProtocolError, ProtocolVersion,
    TransactionApplied, TransactionLimits,
};

fn test_limits() -> TransactionLimits {
    TransactionLimits::new(16, 1024 * 1024, 2 * 1024 * 1024)
}

#[derive(Default)]
struct TestEngine {
    text: Option<String>,
    revision: DocumentRevision,
}

impl DocumentEngine for TestEngine {
    fn capabilities(&self) -> EngineCapabilities {
        EngineCapabilities {
            protocol: ProtocolVersion::v0(),
            capabilities: vec![DocumentCapability::Read, DocumentCapability::EditText, DocumentCapability::SemanticSnapshot],
        }
    }

    fn revision(&self) -> Result<DocumentRevision, EngineError> {
        self.text.as_ref().ok_or(EngineError::NotOpen)?;
        Ok(self.revision)
    }

    fn open_text_fixture(&mut self, text: String) -> Result<DocumentRevision, EngineError> {
        self.text = Some(text);
        self.revision = DocumentRevision::initial();
        Ok(self.revision)
    }

    fn semantic_text(&self) -> Result<SemanticObservation<String>, EngineError> {
        let text = self.text.clone().ok_or(EngineError::NotOpen)?;
        Ok(SemanticObservation::new(self.revision, text))
    }

    fn apply_transaction(&mut self, transaction: DocumentTransaction) -> Result<TransactionApplied, EngineError> {
        if transaction.expected_revision != self.revision {
            return Err(ProtocolError::RevisionConflict { expected: transaction.expected_revision, actual: self.revision }.into());
        }
        let text = self.text.as_mut().ok_or(EngineError::NotOpen)?;
        transaction.validate_against(text, test_limits())?;
        for edit in transaction.edits.into_iter().rev() {
            let range = edit.byte_range(text)?;
            text.replace_range(range, &edit.replacement);
        }
        let previous_revision = self.revision;
        self.revision = self.revision.next();
        Ok(TransactionApplied { previous_revision, new_revision: self.revision })
    }
}

#[test]
fn open_and_replace_are_exposed_as_application_intent() {
    let mut app = AppCore::new(TestEngine::default());
    let opened = app.open_text_document(String::from("hello world")).unwrap();
    assert_eq!(opened.authority_generation(), 1);
    assert_eq!(opened.revision(), 0);
    assert_eq!(opened.text(), "hello world");

    let edited = app.replace_document_text(String::from("hello editor")).unwrap();
    assert_eq!(edited.authority_generation(), 1);
    assert_eq!(edited.revision(), 1);
    assert_eq!(edited.text(), "hello editor");
}

#[test]
fn identical_ui_text_is_a_true_no_op() {
    let mut app = AppCore::new(TestEngine::default());
    app.open_text_document(String::from("same")).unwrap();

    let unchanged = app.replace_document_text(String::from("same")).unwrap();

    assert_eq!(unchanged.revision(), 0);
    assert_eq!(unchanged.text(), "same");
}

#[test]
fn reopening_advances_authority_even_when_engine_revision_restarts() {
    let mut app = AppCore::new(TestEngine::default());
    let first = app.open_text_document(String::from("first")).unwrap();
    let second = app.open_text_document(String::from("second")).unwrap();

    assert_eq!(first.revision(), 0);
    assert_eq!(second.revision(), 0);
    assert_eq!(first.authority_generation(), 1);
    assert_eq!(second.authority_generation(), 2);
}

#[test]
fn replacement_window_preserves_utf8_boundaries() {
    let current = "A café and tea ☕";
    let next = "A caffè and tea ☕";
    let (start, end, replacement) = replacement_window(current, next);

    assert!(current.is_char_boundary(start));
    assert!(current.is_char_boundary(end));
    assert!(next.is_char_boundary(start));
    assert_eq!(&current[..start], &next[..start]);
    assert_eq!(replacement, "fè");

    let mut rebuilt = current.to_owned();
    rebuilt.replace_range(start..end, replacement);
    assert_eq!(rebuilt, next);
}

#[test]
fn replacement_window_handles_insert_and_delete_without_crossing_prefix() {
    assert_eq!(replacement_window("abc", "abXYZc"), (2, 2, "XYZ"));
    assert_eq!(replacement_window("abXYZc", "abc"), (2, 5, ""));
}

#[test]
fn common_prefix_and_suffix_stop_at_character_boundaries() {
    assert_eq!(common_prefix_bytes("café", "cafè"), 3);
    assert_eq!(common_suffix_bytes("xé", "yé"), 2);
    assert_eq!(common_prefix_bytes("", "abc"), 0);
}

#[test]
fn replacement_transaction_carries_one_minimal_edit() {
    let transaction = replacement_transaction(DocumentRevision::new(4), "abc", "abXc");
    assert_eq!(transaction.expected_revision, DocumentRevision::new(4));
    assert_eq!(transaction.edits.len(), 1);
    assert_eq!(transaction.edits[0].start_utf8.get(), 2);
    assert_eq!(transaction.edits[0].end_utf8.get(), 2);
    assert_eq!(transaction.edits[0].replacement, "X");
}

#[test]
fn snapshot_without_document_reports_not_open() {
    let app = AppCore::new(TestEngine::default());
    assert!(matches!(app.snapshot(), Err(EngineError::NotOpen)));
}

#[test]
fn status_text_names_authority_revision_and_byte_length() {
    let mut app = AppCore::new(TestEngine::default());
    let opened = app.open_text_document(String::from("héllo")).unwrap();
    assert_eq!(opened.status_text(), "Authority 1 · Revision 0 · 6 bytes");
    let edited = app.replace_document_text(String::from("hello editor")).unwrap();
    assert_eq!(edited.status_text(), "Authority 1 · Revision 1 · 12 bytes");
}
