use office_document::mock_engine::MockDocumentEngine;
use office_document::protocol::{DocumentRevision, DocumentTransaction, TextEdit, TextOffset};
use office_document::reconciliation::{
    reconcile_anchor, DurableLogicalAnchor, HistoryLineageId, LogicalAnchorAllocator, ReconciliationBasis,
    ReconciliationCandidate, ReconciliationError, ReconciliationEvidenceError, ReconciliationOutcome,
};
use office_document::session::DocumentSession;

#[derive(Clone, Debug, Eq, PartialEq)]
struct ParagraphHint {
    text: String,
    previous_text: Option<String>,
    next_text: Option<String>,
}

#[derive(Clone, Copy, Debug, Eq, PartialEq)]
struct ParagraphLocator(u64);

fn lineage() -> HistoryLineageId {
    HistoryLineageId::new(0x0ff1_ce00_0000_0000_0000_0000_0000_0001)
}

fn anchor_fixture() -> DurableLogicalAnchor<ParagraphHint> {
    let mut allocator = LogicalAnchorAllocator::new(lineage());
    allocator
        .mint(ParagraphHint {
            text: String::from("same"),
            previous_text: Some(String::from("left")),
            next_text: Some(String::from("right")),
        })
        .unwrap()
}

fn append(expected_revision: DocumentRevision, offset: u64, text: &str) -> DocumentTransaction {
    DocumentTransaction {
        expected_revision,
        edits: vec![TextEdit { start_utf8: TextOffset::new(offset), end_utf8: TextOffset::new(offset), replacement: String::from(text) }],
    }
}

#[test]
fn anchor_allocator_is_monotonic_and_resumable_without_engine_identity() {
    let mut allocator = LogicalAnchorAllocator::new(lineage());
    let first = allocator.mint(()).unwrap();
    let second = allocator.mint(()).unwrap();
    let persisted_cursor = allocator.last_issued();
    let mut resumed = LogicalAnchorAllocator::resume(lineage(), persisted_cursor);
    let third = resumed.mint(()).unwrap();

    assert_eq!(first.id().local_sequence(), 1);
    assert_eq!(second.id().local_sequence(), 2);
    assert_eq!(third.id().local_sequence(), 3);
    assert_eq!(first.id().lineage(), lineage());
    assert_eq!(third.id().lineage(), lineage());
}

#[test]
fn duplicate_semantics_are_ambiguous_without_structural_or_lineage_evidence() {
    let mut session = DocumentSession::new(MockDocumentEngine::default());
    session.open_text_fixture(String::from("same\nsame")).unwrap();
    let authority = session.current_authority_stamp().unwrap();
    let anchor = anchor_fixture();

    let candidates = [
        ReconciliationCandidate::new(authority, ParagraphLocator(0)).with_semantic_equivalence(),
        ReconciliationCandidate::new(authority, ParagraphLocator(1)).with_semantic_equivalence(),
    ];

    assert_eq!(reconcile_anchor(anchor.id(), authority, &candidates).unwrap(), ReconciliationOutcome::Ambiguous);
}

#[test]
fn unique_structural_and_semantic_evidence_rebinds_without_engine_identity() {
    let mut session = DocumentSession::new(MockDocumentEngine::default());
    session.open_text_fixture(String::from("left\nsame\nright")).unwrap();
    let authority = session.current_authority_stamp().unwrap();
    let anchor = anchor_fixture();

    let candidates = [
        ReconciliationCandidate::new(authority, ParagraphLocator(0)),
        ReconciliationCandidate::new(authority, ParagraphLocator(1)).with_structural_neighbourhood_match().with_semantic_equivalence(),
        ReconciliationCandidate::new(authority, ParagraphLocator(2)),
    ];

    let ReconciliationOutcome::Rebound { binding, basis } = reconcile_anchor(anchor.id(), authority, &candidates).unwrap() else {
        panic!("unique structural + semantic evidence should rebind");
    };
    assert_eq!(binding.anchor(), anchor.id());
    assert_eq!(binding.authority(), authority);
    assert_eq!(*binding.target(), ParagraphLocator(1));
    assert_eq!(basis, ReconciliationBasis::UniqueStructuralAndSemanticMatch);
}

#[test]
fn same_engine_object_is_positive_only_inside_one_authority_generation() {
    let mut session = DocumentSession::new(MockDocumentEngine::default());
    session.open_text_fixture(String::from("abc")).unwrap();
    let anchor = anchor_fixture();
    let initial_authority = session.current_authority_stamp().unwrap();
    let initial = anchor.bind(initial_authority, ParagraphLocator(0));

    session.open_text_fixture(String::from("abc")).unwrap();
    let replacement_authority = session.current_authority_stamp().unwrap();
    let candidate = ReconciliationCandidate::new(replacement_authority, ParagraphLocator(0));

    assert!(matches!(
        candidate.with_same_authority_engine_continuity(&initial),
        Err(ReconciliationEvidenceError::EngineContinuityCrossesAuthority { .. })
    ));
}

#[test]
fn save_reload_rebinds_same_durable_anchor_under_fresh_authority() {
    let mut session = DocumentSession::new(MockDocumentEngine::default());
    session.open_text_fixture(String::from("left\nsame\nright")).unwrap();
    let anchor = anchor_fixture();
    let first_authority = session.current_authority_stamp().unwrap();
    let first_binding = anchor.bind(first_authority, ParagraphLocator(1));

    let saved_anchor_artifact = anchor.clone();
    let saved_document_artifact = session.semantic_text().unwrap().into_value();
    session.open_text_fixture(saved_document_artifact).unwrap();
    let reloaded_authority = session.current_authority_stamp().unwrap();

    assert_ne!(first_binding.authority().authority_generation(), reloaded_authority.authority_generation());
    let candidates = [
        ReconciliationCandidate::new(reloaded_authority, ParagraphLocator(0)),
        ReconciliationCandidate::new(reloaded_authority, ParagraphLocator(1)).with_structural_neighbourhood_match().with_semantic_equivalence(),
        ReconciliationCandidate::new(reloaded_authority, ParagraphLocator(2)),
    ];
    let ReconciliationOutcome::Rebound { binding, .. } =
        reconcile_anchor(saved_anchor_artifact.id(), reloaded_authority, &candidates).unwrap()
    else {
        panic!("reload should rebind the durable anchor from product evidence");
    };

    assert_eq!(binding.anchor(), first_binding.anchor());
    assert_eq!(binding.authority(), reloaded_authority);
    assert_eq!(*binding.target(), ParagraphLocator(1));
    assert_eq!(saved_anchor_artifact.hint(), anchor.hint());
}

#[test]
fn checkpoint_recovery_preserves_anchor_identity_but_replaces_live_binding_authority() {
    let mut session = DocumentSession::new(MockDocumentEngine::default());
    session.open_text_fixture(String::from("left\nsame\nright")).unwrap();
    let anchor = anchor_fixture();
    let original_authority = session.current_authority_stamp().unwrap();
    let original_binding = anchor.bind(original_authority, ParagraphLocator(1));
    let observation = session.semantic_text().unwrap();
    let checkpoint = session.capture_recovery_checkpoint(&observation).unwrap();

    session.replace_engine_after_authority_loss(MockDocumentEngine::default());
    session.recover_text_fixture_from_checkpoint(&checkpoint).unwrap();
    let recovered_authority = session.current_authority_stamp().unwrap();

    assert_ne!(original_binding.authority().authority_generation(), recovered_authority.authority_generation());
    let candidates = [
        ReconciliationCandidate::new(recovered_authority, ParagraphLocator(0)),
        ReconciliationCandidate::new(recovered_authority, ParagraphLocator(1)).with_structural_neighbourhood_match().with_semantic_equivalence(),
        ReconciliationCandidate::new(recovered_authority, ParagraphLocator(2)),
    ];
    let ReconciliationOutcome::Rebound { binding, .. } = reconcile_anchor(anchor.id(), recovered_authority, &candidates).unwrap() else {
        panic!("recovery should rebind the durable anchor under replacement authority");
    };

    assert_eq!(binding.anchor(), original_binding.anchor());
    assert_eq!(binding.authority(), recovered_authority);
    assert_eq!(*binding.target(), ParagraphLocator(1));
}

#[test]
fn same_authority_engine_continuity_is_valid_positive_evidence_across_revision_change() {
    let mut session = DocumentSession::new(MockDocumentEngine::default());
    session.open_text_fixture(String::from("abc")).unwrap();

    let mut allocator = LogicalAnchorAllocator::new(HistoryLineageId::new(7));
    let anchor = allocator.mint(()).unwrap();
    let initial_authority = session.current_authority_stamp().unwrap();
    let prior = anchor.bind(initial_authority, ParagraphLocator(0));

    session.apply_transaction(append(DocumentRevision::initial(), 3, "!")).unwrap();
    let current_authority = session.current_authority_stamp().unwrap();
    assert_eq!(current_authority.authority_generation(), initial_authority.authority_generation());
    assert_ne!(current_authority.revision(), initial_authority.revision());

    let candidate = ReconciliationCandidate::new(current_authority, ParagraphLocator(0))
        .with_same_authority_engine_continuity(&prior)
        .unwrap();
    let outcome = reconcile_anchor(anchor.id(), current_authority, &[candidate]).unwrap();

    let ReconciliationOutcome::Rebound { binding, basis } = outcome else {
        panic!("same-authority object continuity should be positive reconciliation evidence");
    };
    assert_eq!(binding.anchor(), anchor.id());
    assert_eq!(*binding.target(), ParagraphLocator(0));
    assert_eq!(binding.authority(), current_authority);
    assert_eq!(basis, ReconciliationBasis::SameAuthorityEngineContinuity);
}

#[test]
fn explicit_product_lineage_beats_incidental_structural_semantic_similarity() {
    let mut session = DocumentSession::new(MockDocumentEngine::default());
    session.open_text_fixture(String::from("left\nsame\nright")).unwrap();

    let mut allocator = LogicalAnchorAllocator::new(HistoryLineageId::new(8));
    let anchor = allocator.mint(()).unwrap();
    let applied = session.apply_transaction(append(DocumentRevision::initial(), 15, "!")).unwrap();
    let authority = session.current_authority_stamp().unwrap();

    let candidates = [
        ReconciliationCandidate::new(authority, ParagraphLocator(0)).with_structural_neighbourhood_match().with_semantic_equivalence(),
        ReconciliationCandidate::new(authority, ParagraphLocator(1)).with_product_lineage(applied.sequence()),
    ];

    let outcome = reconcile_anchor(anchor.id(), authority, &candidates).unwrap();
    let ReconciliationOutcome::Rebound { binding, basis } = outcome else {
        panic!("explicit product lineage should determine the target");
    };

    assert_eq!(*binding.target(), ParagraphLocator(1));
    assert_eq!(basis, ReconciliationBasis::ProductLineage(applied.sequence()));
}

#[test]
fn conflicting_product_lineage_candidates_are_never_guessed_between() {
    let mut session = DocumentSession::new(MockDocumentEngine::default());
    session.open_text_fixture(String::from("abc")).unwrap();
    let applied = session.apply_transaction(append(DocumentRevision::initial(), 3, "!")).unwrap();
    let authority = session.current_authority_stamp().unwrap();

    let mut allocator = LogicalAnchorAllocator::new(HistoryLineageId::new(9));
    let anchor = allocator.mint(()).unwrap();
    let candidates = [
        ReconciliationCandidate::new(authority, ParagraphLocator(0)).with_product_lineage(applied.sequence()),
        ReconciliationCandidate::new(authority, ParagraphLocator(1)).with_product_lineage(applied.sequence()),
    ];

    assert_eq!(reconcile_anchor(anchor.id(), authority, &candidates).unwrap(), ReconciliationOutcome::Ambiguous);
}

#[test]
fn candidate_from_another_authority_is_an_error() {
    let mut session = DocumentSession::new(MockDocumentEngine::default());
    session.open_text_fixture(String::from("abc")).unwrap();
    let first = session.current_authority_stamp().unwrap();
    session.open_text_fixture(String::from("abc")).unwrap();
    let second = session.current_authority_stamp().unwrap();
    let anchor = anchor_fixture();
    let candidates = [ReconciliationCandidate::new(first, ParagraphLocator(0))];
    assert_eq!(
        reconcile_anchor(anchor.id(), second, &candidates),
        Err(ReconciliationError::CandidateAuthorityMismatch { expected: second, actual: first })
    );
}

#[test]
fn no_positive_evidence_leaves_the_anchor_unresolved() {
    let mut session = DocumentSession::new(MockDocumentEngine::default());
    session.open_text_fixture(String::from("abc")).unwrap();
    let authority = session.current_authority_stamp().unwrap();
    let anchor = anchor_fixture();
    let candidates = [ReconciliationCandidate::new(authority, ParagraphLocator(0))];
    assert_eq!(reconcile_anchor(anchor.id(), authority, &candidates).unwrap(), ReconciliationOutcome::Unresolved);
}
