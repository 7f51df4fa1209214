use office_document::anchors::{AnchorMutationError, DocumentLineageId, ParagraphAnchorRecord, ParagraphAnchorTable};
use office_document::snapshot::{
    AnchorRebindError, AnchorSnapshotCodecError, AnchorSnapshotLimits, ParagraphAnchorSnapshot, RECORD_HEADER_BYTES,
    SNAPSHOT_HEADER_BYTES,
};

fn lineage() -> DocumentLineageId {
    DocumentLineageId::from_bytes([0x11; 16])
}

fn other_lineage() -> DocumentLineageId {
    DocumentLineageId::from_bytes([0x22; 16])
}

fn limits() -> AnchorSnapshotLimits {
    AnchorSnapshotLimits::new(64, 1024, 16 * 1024)
}

fn strings(values: &[&str]) -> Vec<String> {
    values.iter().map(|value| (*value).to_owned()).collect()
}

fn sequences(table: &ParagraphAnchorTable) -> Vec<u64> {
    table.paragraphs().iter().map(|record| record.id().sequence().get()).collect()
}

fn semantic_text(table: &ParagraphAnchorTable) -> Vec<&str> {
    table.paragraphs().iter().map(ParagraphAnchorRecord::semantic_text).collect()
}

#[test]
fn structural_policy_is_product_owned_and_round_trip_stable() {
    let mut table = ParagraphAnchorTable::from_projection(lineage(), strings(&["P0", "P1", "P2"]))
        .expect("initial projection must fit anchor sequence");
    assert_eq!(sequences(&table), vec![1, 2, 3]);

    let (left, right) = table.split_paragraph(0, "P0-left".into(), "P0-right".into()).expect("qualified split must be representable");
    assert_eq!(left.sequence().get(), 1);
    assert_eq!(right.sequence().get(), 4);
    assert_eq!(sequences(&table), vec![1, 4, 2, 3]);

    let merged = table.merge_with_next(0, "P0".into()).expect("qualified merge must be representable");
    assert_eq!(merged.surviving(), left);
    assert_eq!(merged.retired(), right);
    assert_eq!(sequences(&table), vec![1, 2, 3]);
    assert_eq!(table.paragraphs().iter().map(ParagraphAnchorRecord::semantic_text).collect::<Vec<_>>(), vec!["P0", "P1", "P2"]);
}

#[test]
fn split_merge_policy_is_product_owned_and_round_trip_stable() {
    let mut table = ParagraphAnchorTable::from_projection(lineage(), strings(&["P0", "P1", "P2"]))
        .expect("initial projection must fit anchor sequence");
    assert_eq!(sequences(&table), vec![1, 2, 3]);

    let (left, right) = table.split_paragraph(0, "P0-left".into(), "P0-right".into()).expect("qualified split must be representable");
    assert_eq!(left.sequence().get(), 1);
    assert_eq!(right.sequence().get(), 4);
    assert_eq!(sequences(&table), vec![1, 4, 2, 3]);

    let merged = table.merge_with_next(0, "P0".into()).expect("qualified merge must be representable");
    assert_eq!(merged.surviving(), left);
    assert_eq!(merged.retired(), right);
    assert_eq!(sequences(&table), vec![1, 2, 3]);
    assert_eq!(semantic_text(&table), vec!["P0", "P1", "P2"]);
}

fn ordinary_semantic_change_preserves_existing_anchor_case() {
    let mut table = ParagraphAnchorTable::from_projection(lineage(), strings(&["alpha", "beta"]))
        .expect("initial projection must fit anchor sequence");
    let before = table.paragraphs()[0].id();
    let after = table.replace_paragraph_text(0, "alpha edited".into()).expect("existing paragraph mutation must be valid");
    assert_eq!(before, after);
}

#[test]
fn lib_ordinary_semantic_change_preserves_existing_anchor() {
    ordinary_semantic_change_preserves_existing_anchor_case();
}

#[test]
fn anchor_model_ordinary_semantic_change_preserves_existing_anchor() {
    ordinary_semantic_change_preserves_existing_anchor_case();
}

fn duplicate_text_is_not_used_as_identity_during_exact_rebind_case() {
    let table = ParagraphAnchorTable::from_projection(lineage(), strings(&["duplicate", "duplicate", "tail"]))
        .expect("initial projection must fit anchor sequence");
    assert_ne!(table.paragraphs()[0].id(), table.paragraphs()[1].id());

    let encoded = table.snapshot().encode(limits()).expect("bounded snapshot must encode");
    let decoded = ParagraphAnchorSnapshot::decode(&encoded, limits()).expect("bounded snapshot must decode");
    let rebound = decoded
        .rebind_exact_projection(lineage(), &strings(&["duplicate", "duplicate", "tail"]))
        .expect("exact known-lineage projection must rebind");
    assert_eq!(sequences(&rebound), vec![1, 2, 3]);
}

#[test]
fn lib_duplicate_text_is_not_used_as_identity_during_exact_rebind() {
    duplicate_text_is_not_used_as_identity_during_exact_rebind_case();
}

#[test]
fn anchor_model_duplicate_text_is_not_used_as_identity_during_exact_rebind() {
    duplicate_text_is_not_used_as_identity_during_exact_rebind_case();
}

fn rebind_refuses_to_guess_after_semantic_or_lineage_change_case() {
    let table = ParagraphAnchorTable::from_projection(lineage(), strings(&["P0", "P1", "P2"]))
        .expect("initial projection must fit anchor sequence");
    let snapshot = table.snapshot();

    assert_eq!(
        snapshot.rebind_exact_projection(lineage(), &strings(&["P1", "P0", "P2"])),
        Err(AnchorRebindError::SemanticMismatch { index: 0 })
    );
    assert_eq!(
        snapshot.rebind_exact_projection(other_lineage(), &strings(&["P0", "P1", "P2"])),
        Err(AnchorRebindError::LineageMismatch { expected: other_lineage(), actual: lineage() })
    );
}

#[test]
fn lib_rebind_refuses_to_guess_after_semantic_or_lineage_change() {
    rebind_refuses_to_guess_after_semantic_or_lineage_change_case();
}

#[test]
fn anchor_model_rebind_refuses_to_guess_after_semantic_or_lineage_change() {
    rebind_refuses_to_guess_after_semantic_or_lineage_change_case();
}

fn retired_anchor_sequence_is_not_reused_after_snapshot_reload_case() {
    let mut table = ParagraphAnchorTable::from_projection(lineage(), strings(&["P0", "P1", "P2"]))
        .expect("initial projection must fit anchor sequence");
    let retired = table.insert_paragraph(1, "temporary".into()).expect("insert must mint a new anchor");
    assert_eq!(retired.sequence().get(), 4);
    assert_eq!(table.delete_paragraph(1), Ok(retired));

    let bytes = table.snapshot().encode(limits()).expect("bounded snapshot must encode");
    let snapshot = ParagraphAnchorSnapshot::decode(&bytes, limits()).expect("bounded snapshot must decode");
    let mut rebound = snapshot.rebind_exact_projection(lineage(), &strings(&["P0", "P1", "P2"])).expect("exact projection must rebind");
    let fresh = rebound.insert_paragraph(1, "new".into()).expect("post-reload insert must mint a new anchor");
    assert_eq!(fresh.sequence().get(), 5);
}

#[test]
fn lib_retired_anchor_sequence_is_not_reused_after_snapshot_reload() {
    retired_anchor_sequence_is_not_reused_after_snapshot_reload_case();
}

#[test]
fn anchor_model_retired_anchor_sequence_is_not_reused_after_snapshot_reload() {
    retired_anchor_sequence_is_not_reused_after_snapshot_reload_case();
}

fn snapshot_decoder_enforces_bounds_and_complete_consumption_case() {
    let table = ParagraphAnchorTable::from_projection(lineage(), strings(&["P0", "P1"]))
        .expect("initial projection must fit anchor sequence");
    let bytes = table.snapshot().encode(limits()).expect("bounded snapshot must encode");

    let tiny_limits = AnchorSnapshotLimits::new(1, 1024, 16 * 1024);
    assert_eq!(
        ParagraphAnchorSnapshot::decode(&bytes, tiny_limits),
        Err(AnchorSnapshotCodecError::ParagraphLimitExceeded { actual: 2, limit: 1 })
    );

    let mut trailing = bytes.clone();
    trailing.push(0);
    assert_eq!(ParagraphAnchorSnapshot::decode(&trailing, limits()), Err(AnchorSnapshotCodecError::TrailingBytes));
    assert_eq!(ParagraphAnchorSnapshot::decode(&bytes[..39], limits()), Err(AnchorSnapshotCodecError::Truncated));
    assert_eq!(
        ParagraphAnchorSnapshot::decode(&bytes[..SNAPSHOT_HEADER_BYTES - 1], limits()),
        Err(AnchorSnapshotCodecError::Truncated)
    );
    assert_eq!(RECORD_HEADER_BYTES, 12);
}

#[test]
fn lib_snapshot_decoder_enforces_bounds_and_complete_consumption() {
    snapshot_decoder_enforces_bounds_and_complete_consumption_case();
}

#[test]
fn anchor_model_snapshot_decoder_enforces_bounds_and_complete_consumption() {
    snapshot_decoder_enforces_bounds_and_complete_consumption_case();
}

#[test]
fn snapshot_round_trip_restores_every_record() {
    let table = ParagraphAnchorTable::from_projection(lineage(), strings(&["héllo", "", "world"])).unwrap();
    let snapshot = table.snapshot();
    let bytes = snapshot.encode(limits()).unwrap();
    assert_eq!(&bytes[0..8], b"OFANCHR1");
    let decoded = ParagraphAnchorSnapshot::decode(&bytes, limits()).unwrap();
    assert_eq!(decoded, snapshot);
    assert_eq!(decoded.lineage(), lineage());
    assert_eq!(decoded.paragraphs().len(), 3);
}

#[test]
fn bad_snapshot_magic_is_refused() {
    let table = ParagraphAnchorTable::from_projection(lineage(), strings(&["P0"])).unwrap();
    let mut bytes = table.snapshot().encode(limits()).unwrap();
    bytes[0] = b'X';
    assert!(matches!(ParagraphAnchorSnapshot::decode(&bytes, limits()), Err(AnchorSnapshotCodecError::InvalidMagic)));
}

#[test]
fn mutation_outside_the_table_is_refused() {
    let mut table = ParagraphAnchorTable::from_projection(lineage(), strings(&["P0"])).unwrap();
    assert_eq!(table.delete_paragraph(3), Err(AnchorMutationError::ParagraphOutOfBounds { index: 3, paragraph_count: 1 }));
    assert_eq!(table.merge_with_next(0, "x".into()), Err(AnchorMutationError::NoFollowingParagraph { index: 0, paragraph_count: 1 }));
    assert_eq!(sequences(&table), vec![1]);
}

#[test]
fn snapshot_with_invalid_utf8_text_is_refused() {
    let table = ParagraphAnchorTable::from_projection(lineage(), strings(&["P0"])).unwrap();
    let mut bytes = table.snapshot().encode(limits()).unwrap();
    bytes[SNAPSHOT_HEADER_BYTES + RECORD_HEADER_BYTES] = 0xff;
    assert_eq!(ParagraphAnchorSnapshot::decode(&bytes, limits()), Err(AnchorSnapshotCodecError::InvalidUtf8));
}

#[test]
fn every_cut_of_an_encoding_is_truncated() {
    let table = ParagraphAnchorTable::from_projection(lineage(), strings(&["P0", "héllo"])).unwrap();
    let bytes = table.snapshot().encode(limits()).unwrap();
    for k in 0..bytes.len() {
        assert_eq!(ParagraphAnchorSnapshot::decode(&bytes[..k], limits()), Err(AnchorSnapshotCodecError::Truncated), "cut at {k}");
    }
    assert!(ParagraphAnchorSnapshot::decode(&bytes, limits()).is_ok());
}

#[test]
fn record_errors_are_reported_in_reading_order() {
    let table = ParagraphAnchorTable::from_projection(lineage(), strings(&["P0", "P1"])).unwrap();
    let bytes = table.snapshot().encode(limits()).unwrap();

    let mut duplicate = bytes.clone();
    duplicate[54..62].copy_from_slice(&1u64.to_le_bytes());
    assert!(matches!(ParagraphAnchorSnapshot::decode(&duplicate, limits()), Err(AnchorSnapshotCodecError::DuplicateSequence(_))));

    let mut zero = bytes.clone();
    zero[40..48].copy_from_slice(&0u64.to_le_bytes());
    assert_eq!(ParagraphAnchorSnapshot::decode(&zero, limits()), Err(AnchorSnapshotCodecError::ZeroSequence));

    let mut bad_text = bytes.clone();
    bad_text[52] = 0xff;
    assert_eq!(ParagraphAnchorSnapshot::decode(&bad_text, limits()), Err(AnchorSnapshotCodecError::InvalidUtf8));
}
