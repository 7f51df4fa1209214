//! Versioned, wire-safe value types shared across the document-engine boundary.

use std::ops::Range;
use vstd::prelude::*;
use vstd::utf8::*;
use crate::text::{str_is_boundary, str_len, utf8};

use crate::text::{decimal, push_decimal, push_text};

verus! {

/// Correlates one request with its response across an engine transport.
#[derive(Clone, Copy, Debug, Default, Eq, Hash, Ord, PartialEq, PartialOrd, Structural)]
pub struct RequestId(pub u64);

impl RequestId {
    pub fn new(value: u64) -> (r: Self)
        ensures
            r.0 == value,
    {
        RequestId(value)
    }

    pub fn get(self) -> (v: u64)
        ensures
            v == self.0,
    {
        self.0
    }
}

/// Monotonic engine revision for one authoritative document session.
#[derive(Clone, Copy, Debug, Default, Eq, Hash, Ord, PartialEq, PartialOrd, Structural)]
pub struct DocumentRevision(pub u64);

impl DocumentRevision {
    /// The revision of a freshly opened document.
    pub fn initial() -> (r: Self)
        ensures
            r.0 == 0,
    {
        DocumentRevision(0)
    }

    pub fn new(value: u64) -> (r: Self)
        ensures
            r.0 == value,
    {
        DocumentRevision(value)
    }

    pub fn get(self) -> (v: u64)
        ensures
            v == self.0,
    {
        self.0
    }

    /// The following revision, saturating at the top of the fixed-width range.
    pub open spec fn next_spec(self) -> DocumentRevision {
        DocumentRevision(if self.0 == u64::MAX { u64::MAX } else { (self.0 + 1) as u64 })
    }

    /// The following revision, saturating at the top of the fixed-width range.
    pub fn next(self) -> (r: Self)
        ensures
            r == self.next_spec(),
    {
        DocumentRevision(self.0.saturating_add(1))
    }
}

/// UTF-8 byte offset used by protocol text operations (fixed width on every host).
#[derive(Clone, Copy, Debug, Default, Eq, Hash, Ord, PartialEq, PartialOrd, Structural)]
pub struct TextOffset(pub u64);

impl TextOffset {
    pub fn new(value: u64) -> (r: Self)
        ensures
            r.0 == value,
    {
        TextOffset(value)
    }

    pub fn get(self) -> (v: u64)
        ensures
            v == self.0,
    {
        self.0
    }
}

#[derive(Clone, Copy, Debug, Eq, PartialEq, Structural)]
pub struct ProtocolVersion {
    pub major: u16,
    pub minor: u16,
}

impl ProtocolVersion {
    /// The protocol version spoken by the current engines.
    pub fn v0() -> (r: Self)
        ensures
            r.major == 0,
            r.minor == 1,
    {
        ProtocolVersion { major: 0, minor: 1 }
    }
}

#[derive(Clone, Copy, Debug, Eq, PartialEq, Structural)]
pub enum DocumentCapability {
    Read,
    EditText,
    Render,
    Save,
    SemanticSnapshot,
}

#[derive(Clone, Debug, Eq, PartialEq)]
pub struct EngineCapabilities {
    pub protocol: ProtocolVersion,
    pub capabilities: Vec<DocumentCapability>,
}

/// One replacement over a UTF-8 byte range in a known document revision.
#[derive(Clone, Debug, Eq, PartialEq)]
pub struct TextEdit {
    pub start_utf8: TextOffset,
    pub end_utf8: TextOffset,
    pub replacement: String,
}

#[derive(Clone, Copy, Debug, Eq, PartialEq, Structural)]
pub enum ProtocolError {
    InvalidRange,
    NotACharacterBoundary,
    DocumentTooLarge,
    TooManyEdits { actual: u64, max: u32 },
    ReplacementTooLarge { actual: u64, max: u64 },
    TransactionPayloadTooLarge { actual: u64, max: u64 },
    RevisionConflict { expected: DocumentRevision, actual: DocumentRevision },
}

/// The byte range an edit names in `text`, or why it names none.
pub open spec fn edit_range_spec(start: u64, end: u64, text: Seq<u8>) -> Result<(int, int), ProtocolError> {
    if start > end || end > text.len() {
        Err(ProtocolError::InvalidRange)
    } else if !is_char_boundary(text, start as int) || !is_char_boundary(text, end as int) {
        Err(ProtocolError::NotACharacterBoundary)
    } else {
        Ok((start as int, end as int))
    }
}

impl TextEdit {
    /// Byte length of the replacement text.
    pub open spec fn replacement_len(&self) -> int {
        utf8(self.replacement@).len() as int
    }

    /// Validates this edit against concrete UTF-8 text and returns native byte indices.
    pub fn byte_range(&self, text: &str) -> (r: Result<Range<usize>, ProtocolError>)
        ensures
            match edit_range_spec(self.start_utf8.0, self.end_utf8.0, utf8(text@)) {
                Ok((s, e)) => r matches Ok(range) && range.start == s && range.end == e,
                Err(err) => r == Err::<Range<usize>, ProtocolError>(err),
            },
    {
        let text_len = str_len(text);
        if self.start_utf8.0 > self.end_utf8.0 || self.end_utf8.0 > text_len as u64 {
            return Err(ProtocolError::InvalidRange);
        }
        let start = self.start_utf8.0 as usize;
        let end = self.end_utf8.0 as usize;
        if !str_is_boundary(text, start) || !str_is_boundary(text, end) {
            return Err(ProtocolError::NotACharacterBoundary);
        }
        Ok(start..end)
    }
}

/// Explicit admission limits for one document transaction.
#[derive(Clone, Copy, Debug, Eq, PartialEq, Structural)]
pub struct TransactionLimits {
    pub max_edits: u32,
    pub max_replacement_bytes: u64,
    pub max_total_replacement_bytes: u64,
}

impl TransactionLimits {
    pub fn new(max_edits: u32, max_replacement_bytes: u64, max_total_replacement_bytes: u64) -> (r: Self)
        ensures
            r.max_edits == max_edits,
            r.max_replacement_bytes == max_replacement_bytes,
            r.max_total_replacement_bytes == max_total_replacement_bytes,
    {
        TransactionLimits { max_edits, max_replacement_bytes, max_total_replacement_bytes }
    }

    pub fn max_edits(self) -> (v: u32)
        ensures
            v == self.max_edits,
    {
        self.max_edits
    }

    pub fn max_replacement_bytes(self) -> (v: u64)
        ensures
            v == self.max_replacement_bytes,
    {
        self.max_replacement_bytes
    }

    pub fn max_total_replacement_bytes(self) -> (v: u64)
        ensures
            v == self.max_total_replacement_bytes,
    {
        self.max_total_replacement_bytes
    }
}

#[derive(Clone, Debug, Eq, PartialEq)]
pub struct DocumentTransaction {
    pub expected_revision: DocumentRevision,
    pub edits: Vec<TextEdit>,
}

/// Total replacement bytes of the first `n` edits.
pub open spec fn prefix_replacement_bytes(edits: Seq<TextEdit>, n: int) -> int
    decreases n,
{
    if n <= 0 {
        0
    } else {
        prefix_replacement_bytes(edits, n - 1) + edits[n - 1].replacement_len()
    }
}

/// Why one edit is refused, given the replacement bytes admitted before it.
pub open spec fn edit_admission_error(
    edit: TextEdit,
    admitted_before: int,
    text: Seq<u8>,
    limits: TransactionLimits,
) -> Option<ProtocolError> {
    let len = edit.replacement_len();
    let total = admitted_before + len;
    if len > limits.max_replacement_bytes {
        Some(ProtocolError::ReplacementTooLarge { actual: len as u64, max: limits.max_replacement_bytes })
    } else if total > u64::MAX {
        Some(ProtocolError::TransactionPayloadTooLarge { actual: u64::MAX, max: limits.max_total_replacement_bytes })
    } else if total > limits.max_total_replacement_bytes {
        Some(ProtocolError::TransactionPayloadTooLarge { actual: total as u64, max: limits.max_total_replacement_bytes })
    } else {
        match edit_range_spec(edit.start_utf8.0, edit.end_utf8.0, text) {
            Err(e) => Some(e),
            Ok(_) => None,
        }
    }
}

/// The first refusal among edits `i..`, scanning in transaction order.
pub open spec fn first_edit_error(
    edits: Seq<TextEdit>,
    text: Seq<u8>,
    limits: TransactionLimits,
    i: int,
) -> Option<ProtocolError>
    decreases edits.len() - i,
{
    if i < 0 || i >= edits.len() {
        None
    } else {
        match edit_admission_error(edits[i], prefix_replacement_bytes(edits, i), text, limits) {
            Some(e) => Some(e),
            None => first_edit_error(edits, text, limits, i + 1),
        }
    }
}

/// Edit `i` comes before edit `j` once edits are ordered by start offset, ties kept in
/// transaction order.
pub open spec fn ordered_before(edits: Seq<TextEdit>, i: int, j: int) -> bool {
    edits[i].start_utf8.0 < edits[j].start_utf8.0
        || (edits[i].start_utf8.0 == edits[j].start_utf8.0 && i < j)
}

/// Two edits overlap in start order: the earlier one ends after the later one starts.
pub open spec fn edits_overlap(edits: Seq<TextEdit>) -> bool {
    exists|i: int, j: int|
        0 <= i < edits.len() && 0 <= j < edits.len() && i != j && ordered_before(edits, i, j)
            && edits[i].end_utf8.0 > edits[j].start_utf8.0
}

/// The admission decision for a transaction against `text` under `limits`.
pub open spec fn validate_spec(edits: Seq<TextEdit>, text: Seq<u8>, limits: TransactionLimits) -> Result<(), ProtocolError> {
    if edits.len() > limits.max_edits {
        Err(ProtocolError::TooManyEdits { actual: edits.len() as u64, max: limits.max_edits })
    } else {
        match first_edit_error(edits, text, limits, 0) {
            Some(e) => Err(e),
            None => if edits_overlap(edits) {
                Err(ProtocolError::InvalidRange)
            } else {
                Ok(())
            },
        }
    }
}

proof fn lemma_first_edit_error_unfold(edits: Seq<TextEdit>, text: Seq<u8>, limits: TransactionLimits, i: int)
    requires
        0 <= i < edits.len(),
    ensures
        first_edit_error(edits, text, limits, i) == match edit_admission_error(edits[i], prefix_replacement_bytes(edits, i), text, limits) {
            Some(e) => Some(e),
            None => first_edit_error(edits, text, limits, i + 1),
        },
{
}

impl DocumentTransaction {
    /// Validates resource bounds, UTF-8 ranges and non-overlap against a source snapshot.
    ///
    /// No mutation may begin until this succeeds, preserving all-or-nothing admission.
    pub fn validate_against(&self, text: &str, limits: TransactionLimits) -> (r: Result<(), ProtocolError>)
        ensures
            r == validate_spec(self.edits@, utf8(text@), limits),
    {
        let n = self.edits.len();
        if n as u64 > limits.max_edits as u64 {
            return Err(ProtocolError::TooManyEdits { actual: n as u64, max: limits.max_edits });
        }
        let ghost edits = self.edits@;
        let ghost bytes = utf8(text@);
        let mut total: u64 = 0;
        let mut i: usize = 0;
        while i < n
            invariant
                n == self.edits.len(),
                edits == self.edits@,
                bytes == utf8(text@),
                n <= limits.max_edits,
                0 <= i <= n,
                total == prefix_replacement_bytes(edits, i as int),
                total <= limits.max_total_replacement_bytes,
                first_edit_error(edits, bytes, limits, 0) == first_edit_error(edits, bytes, limits, i as int),
                forall|k: int| 0 <= k < i ==> (#[trigger] edits[k]).start_utf8.0 <= edits[k].end_utf8.0,
            decreases n - i,
        {
            let edit = &self.edits[i];
            proof {
                lemma_first_edit_error_unfold(edits, bytes, limits, i as int);
            }
            let replacement_bytes = str_len(edit.replacement.as_str()) as u64;
            if replacement_bytes > limits.max_replacement_bytes {
                return Err(ProtocolError::ReplacementTooLarge { actual: replacement_bytes, max: limits.max_replacement_bytes });
            }
            match total.checked_add(replacement_bytes) {
                None => {
                    return Err(ProtocolError::TransactionPayloadTooLarge { actual: u64::MAX, max: limits.max_total_replacement_bytes });
                },
                Some(t) => {
                    total = t;
                },
            }
            if total > limits.max_total_replacement_bytes {
                return Err(ProtocolError::TransactionPayloadTooLarge { actual: total, max: limits.max_total_replacement_bytes });
            }
            match edit.byte_range(text) {
                Err(e) => {
                    return Err(e);
                },
                Ok(_) => {},
            }
            i = i + 1;
        }
        assert(first_edit_error(edits, bytes, limits, n as int) is None);
        // Pairwise overlap check in start order.
        let mut a: usize = 0;
        while a < n
            invariant
                n == self.edits.len(),
                edits == self.edits@,
                bytes == utf8(text@),
                n <= limits.max_edits,
                first_edit_error(edits, bytes, limits, 0) is None,
                0 <= a <= n,
                forall|x: int, y: int|
                    0 <= x < a && 0 <= y < n && x != y && ordered_before(edits, x, y)
                        ==> !(edits[x].end_utf8.0 > edits[y].start_utf8.0),
            decreases n - a,
        {
            let mut b: usize = 0;
            while b < n
                invariant
                    n == self.edits.len(),
                    edits == self.edits@,
                    bytes == utf8(text@),
                    n <= limits.max_edits,
                    first_edit_error(edits, bytes, limits, 0) is None,
                    0 <= a < n,
                    0 <= b <= n,
                    forall|x: int, y: int|
                        0 <= x < a && 0 <= y < n && x != y && ordered_before(edits, x, y)
                            ==> !(edits[x].end_utf8.0 > edits[y].start_utf8.0),
                    forall|y: int|
                        0 <= y < b && a != y && ordered_before(edits, a as int, y)
                            ==> !(edits[a as int].end_utf8.0 > edits[y].start_utf8.0),
                decreases n - b,
            {
                let ea = &self.edits[a];
                let eb = &self.edits[b];
                let before = ea.start_utf8.0 < eb.start_utf8.0 || (ea.start_utf8.0 == eb.start_utf8.0 && a < b);
                if a != b && before && ea.end_utf8.0 > eb.start_utf8.0 {
                    assert(ordered_before(edits, a as int, b as int));
                    assert(edits[a as int].end_utf8.0 > edits[b as int].start_utf8.0);
                    assert(edits_overlap(edits));
                    return Err(ProtocolError::InvalidRange);
                }
                b = b + 1;
            }
            a = a + 1;
        }
        Ok(())
    }
}

#[derive(Clone, Debug, Eq, PartialEq, Structural)]
pub struct TransactionApplied {
    pub previous_revision: DocumentRevision,
    pub new_revision: DocumentRevision,
}

/// The diagnostic text of a protocol error.
pub open spec fn protocol_error_text(e: ProtocolError) -> Seq<char> {
    match e {
        ProtocolError::InvalidRange => "invalid text range"@,
        ProtocolError::NotACharacterBoundary => "range is not on a UTF-8 character boundary"@,
        ProtocolError::DocumentTooLarge => "document text is too large for protocol UTF-8 offsets"@,
        ProtocolError::TooManyEdits { actual, max } => "transaction contains "@ + decimal(actual as nat) + " edits; limit is "@ + decimal(max as nat),
        ProtocolError::ReplacementTooLarge { actual, max } => "one text replacement contains "@ + decimal(actual as nat) + " bytes; limit is "@ + decimal(max as nat),
        ProtocolError::TransactionPayloadTooLarge { actual, max } => "transaction replacement payload contains "@ + decimal(actual as nat) + " bytes; limit is "@ + decimal(max as nat),
        ProtocolError::RevisionConflict { expected, actual } => "revision conflict: expected "@ + decimal(expected.0 as nat) + ", actual "@ + decimal(actual.0 as nat),
    }
}

impl ProtocolError {
    /// The diagnostic text of the error.
    pub fn message(&self) -> (m: String)
        ensures
            m@ == protocol_error_text(*self),
    {
        let mut m = String::new();
        match *self {
            ProtocolError::InvalidRange => {
                push_text(&mut m, "invalid text range");
            },
            ProtocolError::NotACharacterBoundary => {
                push_text(&mut m, "range is not on a UTF-8 character boundary");
            },
            ProtocolError::DocumentTooLarge => {
                push_text(&mut m, "document text is too large for protocol UTF-8 offsets");
            },
            ProtocolError::TooManyEdits { actual, max } => {
                push_text(&mut m, "transaction contains ");
                push_decimal(&mut m, actual as u64);
                push_text(&mut m, " edits; limit is ");
                push_decimal(&mut m, max as u64);
            },
            ProtocolError::ReplacementTooLarge { actual, max } => {
                push_text(&mut m, "one text replacement contains ");
                push_decimal(&mut m, actual as u64);
                push_text(&mut m, " bytes; limit is ");
                push_decimal(&mut m, max as u64);
            },
            ProtocolError::TransactionPayloadTooLarge { actual, max } => {
                push_text(&mut m, "transaction replacement payload contains ");
                push_decimal(&mut m, actual as u64);
                push_text(&mut m, " bytes; limit is ");
                push_decimal(&mut m, max as u64);
            },
            ProtocolError::RevisionConflict { expected, actual } => {
                push_text(&mut m, "revision conflict: expected ");
                push_decimal(&mut m, expected.0 as u64);
                push_text(&mut m, ", actual ");
                push_decimal(&mut m, actual.0 as u64);
            },
        }
        proof {
            assert(m@ =~= protocol_error_text(*self));
        }
        m
    }
}

} // verus!
