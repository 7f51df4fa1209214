use office_document::protocol::{
    DocumentRevision, DocumentTransaction, ProtocolError, TextEdit, TextOffset, TransactionLimits,
};

fn test_limits() -> TransactionLimits {
    TransactionLimits::new(4, 8, 12)
}

fn offset(value: u64) -> TextOffset {
    TextOffset::new(value)
}

#[test]
fn text_edit_rejects_non_character_boundary() {
    let text = "aéz";
    let edit = TextEdit {
        start_utf8: offset(2),
        end_utf8: offset(3),
        replacement: String::new(),
    };
    assert_eq!(edit.byte_range(text), Err(ProtocolError::NotACharacterBoundary));
}

#[test]
fn text_edit_rejects_fixed_width_offset_beyond_document() {
    let edit = TextEdit {
        start_utf8: offset(u64::MAX),
        end_utf8: offset(u64::MAX),
        replacement: String::new(),
    };
    assert_eq!(edit.byte_range("abc"), Err(ProtocolError::InvalidRange));
}

#[test]
fn transaction_rejects_overlapping_ranges_before_mutation() {
    let transaction = DocumentTransaction {
        expected_revision: DocumentRevision::initial(),
        edits: vec![
            TextEdit { start_utf8: offset(0), end_utf8: offset(2), replacement: "x".into() },
            TextEdit { start_utf8: offset(1), end_utf8: offset(3), replacement: "y".into() },
        ],
    };
    assert_eq!(transaction.validate_against("abcd", test_limits()), Err(ProtocolError::InvalidRange));
}

#[test]
fn transaction_rejects_excess_edit_count() {
    let edits = (0..5)
        .map(|_| TextEdit { start_utf8: offset(0), end_utf8: offset(0), replacement: String::new() })
        .collect();
    let transaction = DocumentTransaction { expected_revision: DocumentRevision::initial(), edits };
    assert_eq!(
        transaction.validate_against("", test_limits()),
        Err(ProtocolError::TooManyEdits { actual: 5, max: 4 })
    );
}

#[test]
fn transaction_rejects_single_large_replacement() {
    let transaction = DocumentTransaction {
        expected_revision: DocumentRevision::initial(),
        edits: vec![TextEdit { start_utf8: offset(0), end_utf8: offset(0), replacement: "123456789".into() }],
    };
    assert_eq!(
        transaction.validate_against("", test_limits()),
        Err(ProtocolError::ReplacementTooLarge { actual: 9, max: 8 })
    );
}

#[test]
fn transaction_rejects_large_aggregate_replacement_payload() {
    let transaction = DocumentTransaction {
        expected_revision: DocumentRevision::initial(),
        edits: vec![
            TextEdit { start_utf8: offset(0), end_utf8: offset(0), replacement: "1234567".into() },
            TextEdit { start_utf8: offset(1), end_utf8: offset(1), replacement: "7654321".into() },
        ],
    };
    assert_eq!(
        transaction.validate_against("ab", test_limits()),
        Err(ProtocolError::TransactionPayloadTooLarge { actual: 14, max: 12 })
    );
}

#[test]
fn valid_transaction_passes_structural_and_text_validation() {
    let transaction = DocumentTransaction {
        expected_revision: DocumentRevision::initial(),
        edits: vec![TextEdit { start_utf8: offset(1), end_utf8: offset(3), replacement: "xy".into() }],
    };
    assert_eq!(transaction.validate_against("abcd", test_limits()), Ok(()));
}

#[test]
fn byte_range_of_a_valid_edit_is_its_utf8_span() {
    let edit = TextEdit { start_utf8: offset(1), end_utf8: offset(3), replacement: String::new() };
    assert_eq!(edit.byte_range("aéz"), Ok(1..3));
}

#[test]
fn reversed_range_is_invalid() {
    let edit = TextEdit { start_utf8: offset(2), end_utf8: offset(1), replacement: String::new() };
    assert_eq!(edit.byte_range("abcd"), Err(ProtocolError::InvalidRange));
}

#[test]
fn revision_advances_by_one() {
    assert_eq!(DocumentRevision::initial().get(), 0);
    assert_eq!(DocumentRevision::new(41).next(), DocumentRevision::new(42));
}
