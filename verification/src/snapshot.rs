//! Bounded, versioned durable artifact for product-owned paragraph anchors.

use vstd::prelude::*;
use vstd::utf8::*;
use vstd::slice::slice_subrange;
use crate::anchors::{
    anchor_view, never_reissues, records_view, sequence_live, AnchorView, copy_records, lineage_eq, records_wf, same_records, DocumentLineageId, ParagraphAnchorId,
    ParagraphAnchorRecord, ParagraphAnchorSequence, ParagraphAnchorTable,
};
use crate::text::{lemma_utf8_valid, str_len, utf8};
use crate::bytes::{from_le16, from_le32, from_le64, le16, le32, le64, lemma_read_encoded, lemma_le_roundtrip_bytes, lemma_le_roundtrip_bytes_short, push_bytes, push_le16, push_le32, push_le64, read_le16, read_le32, read_le64};

use crate::text::{decimal, hex2, hex_bytes, push_decimal, push_hex2, push_hex_bytes, push_text};

verus! {

/// Format version written into every snapshot header.
pub const SNAPSHOT_FORMAT_VERSION: u16 = 1;

/// Explicit admission limits for decoding or encoding a durable anchor snapshot artifact.
#[derive(Clone, Copy, Debug, Eq, PartialEq, Structural)]
pub struct AnchorSnapshotLimits {
    pub max_paragraphs: u32,
    pub max_paragraph_bytes: u32,
    pub max_total_text_bytes: u64,
}

impl AnchorSnapshotLimits {
    pub fn new(max_paragraphs: u32, max_paragraph_bytes: u32, max_total_text_bytes: u64) -> (r: Self)
        ensures
            r.max_paragraphs == max_paragraphs,
            r.max_paragraph_bytes == max_paragraph_bytes,
            r.max_total_text_bytes == max_total_text_bytes,
    {
        AnchorSnapshotLimits { max_paragraphs, max_paragraph_bytes, max_total_text_bytes }
    }
}

/// Why a durable anchor snapshot artifact could not be decoded or emitted safely.
#[derive(Clone, Copy, Debug, Eq, PartialEq, Structural)]
pub enum AnchorSnapshotCodecError {
    InvalidMagic,
    UnsupportedVersion(u16),
    UnsupportedFlags(u16),
    Truncated,
    TrailingBytes,
    ParagraphLimitExceeded { actual: u32, limit: u32 },
    ParagraphBytesLimitExceeded { actual: u32, limit: u32 },
    TotalTextBytesLimitExceeded { actual: u64, limit: u64 },
    InvalidUtf8,
    ZeroSequence,
    DuplicateSequence(ParagraphAnchorSequence),
    NextSequenceNotAfterLiveAnchors { next: ParagraphAnchorSequence, greatest_live: ParagraphAnchorSequence },
    LengthOverflow,
}

/// Why a persisted anchor snapshot cannot be rebound to a current projection without guessing.
#[derive(Clone, Copy, Debug, Eq, PartialEq)]
pub enum AnchorRebindError {
    LineageMismatch { expected: DocumentLineageId, actual: DocumentLineageId },
    ParagraphCountChanged { expected: usize, actual: usize },
    SemanticMismatch { index: usize },
}

/// Bounded, versioned durable artifact for product-owned paragraph anchors.
#[derive(Clone, Debug, Eq, PartialEq)]
pub struct ParagraphAnchorSnapshot {
    pub(crate) lineage: DocumentLineageId,
    pub(crate) next_sequence: ParagraphAnchorSequence,
    pub(crate) paragraphs: Vec<ParagraphAnchorRecord>,
}

/* ---------------------------------------------------------------------------------------- */
/* Validation                                                                               */
/* ---------------------------------------------------------------------------------------- */

/// UTF-8 byte length of a record's semantic text.
pub open spec fn text_len(v: AnchorView) -> int {
    utf8(v.2).len() as int
}

/// Total text bytes of the first `n` records.
pub open spec fn prefix_text_bytes(vs: Seq<AnchorView>, n: int) -> int
    decreases n,
{
    if n <= 0 { 0 } else { prefix_text_bytes(vs, n - 1) + text_len(vs[n - 1]) }
}

/// Whether an earlier record (index below `i`) carries sequence `seq`.
pub open spec fn seen_before(vs: Seq<AnchorView>, i: int, seq: u64) -> bool {
    exists|j: int| 0 <= j < i && (#[trigger] vs[j]).1 == seq
}

/// The semantic-length admission of one paragraph after `before` admitted text bytes.
pub open spec fn semantic_length_error(len: int, before: int, limits: AnchorSnapshotLimits) -> Option<AnchorSnapshotCodecError> {
    if len > limits.max_paragraph_bytes {
        Some(AnchorSnapshotCodecError::ParagraphBytesLimitExceeded { actual: len as u32, limit: limits.max_paragraph_bytes })
    } else if before + len > u64::MAX {
        Some(AnchorSnapshotCodecError::LengthOverflow)
    } else if before + len > limits.max_total_text_bytes {
        Some(AnchorSnapshotCodecError::TotalTextBytesLimitExceeded { actual: (before + len) as u64, limit: limits.max_total_text_bytes })
    } else {
        None
    }
}

/// Why record `i` is refused, checked in the order the validator checks it.
pub open spec fn record_error(
    lineage: DocumentLineageId,
    next: u64,
    vs: Seq<AnchorView>,
    i: int,
    limits: AnchorSnapshotLimits,
) -> Option<AnchorSnapshotCodecError> {
    let v = vs[i];
    if v.1 == 0 || next == 0 {
        Some(AnchorSnapshotCodecError::ZeroSequence)
    } else if v.0 != lineage {
        Some(AnchorSnapshotCodecError::LengthOverflow)
    } else if seen_before(vs, i, v.1) {
        Some(AnchorSnapshotCodecError::DuplicateSequence(ParagraphAnchorSequence(v.1)))
    } else if text_len(v) > u32::MAX {
        Some(AnchorSnapshotCodecError::LengthOverflow)
    } else {
        semantic_length_error(text_len(v), prefix_text_bytes(vs, i), limits)
    }
}

/// The first refused record at or after `i`.
pub open spec fn first_record_error(
    lineage: DocumentLineageId,
    next: u64,
    vs: Seq<AnchorView>,
    i: int,
    limits: AnchorSnapshotLimits,
) -> Option<AnchorSnapshotCodecError>
    decreases vs.len() - i,
{
    if i < 0 || i >= vs.len() {
        None
    } else {
        match record_error(lineage, next, vs, i, limits) {
            Some(e) => Some(e),
            None => first_record_error(lineage, next, vs, i + 1, limits),
        }
    }
}

/// The greatest sequence among the first `n` records.
pub open spec fn greatest_sequence(vs: Seq<AnchorView>, n: int) -> u64
    decreases n,
{
    if n <= 0 {
        0
    } else {
        let g = greatest_sequence(vs, n - 1);
        let s = vs[n - 1].1;
        if s > g { s } else { g }
    }
}

/// Whether the next sequence to mint follows every live anchor.
pub open spec fn next_sequence_error(next: u64, vs: Seq<AnchorView>) -> Option<AnchorSnapshotCodecError> {
    if vs.len() > 0 && next <= greatest_sequence(vs, vs.len() as int) {
        Some(AnchorSnapshotCodecError::NextSequenceNotAfterLiveAnchors {
            next: ParagraphAnchorSequence(next),
            greatest_live: ParagraphAnchorSequence(greatest_sequence(vs, vs.len() as int)),
        })
    } else {
        None
    }
}

/// The admission decision for a snapshot under `limits`.
pub open spec fn validate_spec(
    lineage: DocumentLineageId,
    next: u64,
    vs: Seq<AnchorView>,
    limits: AnchorSnapshotLimits,
) -> Result<(), AnchorSnapshotCodecError> {
    if vs.len() > u32::MAX {
        Err(AnchorSnapshotCodecError::LengthOverflow)
    } else if vs.len() > limits.max_paragraphs {
        Err(AnchorSnapshotCodecError::ParagraphLimitExceeded { actual: vs.len() as u32, limit: limits.max_paragraphs })
    } else {
        match first_record_error(lineage, next, vs, 0, limits) {
            Some(e) => Err(e),
            None => match next_sequence_error(next, vs) {
                Some(e) => Err(e),
                None => Ok(()),
            },
        }
    }
}

impl ParagraphAnchorSnapshot {
    pub closed spec fn spec_lineage(&self) -> DocumentLineageId {
        self.lineage
    }

    pub closed spec fn spec_next(&self) -> u64 {
        self.next_sequence.spec_get()
    }

    pub closed spec fn spec_records(&self) -> Seq<ParagraphAnchorRecord> {
        self.paragraphs@
    }

    /// The views of the snapshot's records.
    pub open spec fn spec_views(&self) -> Seq<AnchorView> {
        records_view(self.spec_records())
    }

    pub fn lineage(&self) -> (l: DocumentLineageId)
        ensures
            l == self.spec_lineage(),
    {
        self.lineage
    }

    pub fn paragraphs(&self) -> (p: &[ParagraphAnchorRecord])
        ensures
            p@ == self.spec_records(),
    {
        self.paragraphs.as_slice()
    }
}

/// Admits one paragraph's semantic length, accumulating the running text total.
fn validate_semantic_length(semantic_len: u32, total_text_bytes: &mut u64, limits: AnchorSnapshotLimits) -> (r: Result<(), AnchorSnapshotCodecError>)
    ensures
        match semantic_length_error(semantic_len as int, *old(total_text_bytes) as int, limits) {
            Some(e) => r == Err::<(), AnchorSnapshotCodecError>(e),
            None => r is Ok && *final(total_text_bytes) == *old(total_text_bytes) + semantic_len,
        },
{
    if semantic_len > limits.max_paragraph_bytes {
        return Err(AnchorSnapshotCodecError::ParagraphBytesLimitExceeded { actual: semantic_len, limit: limits.max_paragraph_bytes });
    }
    match total_text_bytes.checked_add(semantic_len as u64) {
        None => {
            return Err(AnchorSnapshotCodecError::LengthOverflow);
        },
        Some(t) => {
            *total_text_bytes = t;
        },
    }
    if *total_text_bytes > limits.max_total_text_bytes {
        return Err(AnchorSnapshotCodecError::TotalTextBytesLimitExceeded { actual: *total_text_bytes, limit: limits.max_total_text_bytes });
    }
    Ok(())
}

/// Requires the next sequence to follow the greatest live sequence, when there is one.
fn validate_next_sequence(next_sequence: ParagraphAnchorSequence, greatest_live: Option<ParagraphAnchorSequence>) -> (r: Result<(), AnchorSnapshotCodecError>)
    ensures
        match greatest_live {
            Some(g) => if next_sequence.spec_get() <= g.spec_get() {
                r == Err::<(), AnchorSnapshotCodecError>(AnchorSnapshotCodecError::NextSequenceNotAfterLiveAnchors { next: next_sequence, greatest_live: g })
            } else {
                r is Ok
            },
            None => r is Ok,
        },
{
    match greatest_live {
        Some(g) => {
            if next_sequence.get() <= g.get() {
                return Err(AnchorSnapshotCodecError::NextSequenceNotAfterLiveAnchors { next: next_sequence, greatest_live: g });
            }
            Ok(())
        },
        None => Ok(()),
    }
}

/// Whether `seq` occurs in `seen`.
fn contains_sequence(seen: &Vec<u64>, seq: u64) -> (b: bool)
    ensures
        b == seen@.contains(seq),
{
    let mut i: usize = 0;
    while i < seen.len()
        invariant
            0 <= i <= seen@.len(),
            forall|j: int| 0 <= j < i ==> seen@[j] != seq,
        decreases seen@.len() - i,
    {
        if seen[i] == seq {
            return true;
        }
        i = i + 1;
    }
    false
}

proof fn lemma_prefix_text_bytes_step(rs: Seq<AnchorView>, i: int)
    requires
        0 <= i < rs.len(),
    ensures
        prefix_text_bytes(rs, i + 1) == prefix_text_bytes(rs, i) + text_len(rs[i]),
{
}

/// Validates snapshot records (used before encoding and after decoding).
fn validate_records(
    lineage: &DocumentLineageId,
    next_sequence: ParagraphAnchorSequence,
    paragraphs: &Vec<ParagraphAnchorRecord>,
    limits: AnchorSnapshotLimits,
) -> (r: Result<(), AnchorSnapshotCodecError>)
    ensures
        r == validate_spec(*lineage, next_sequence.spec_get(), records_view(paragraphs@), limits),
{
    let ghost rs = records_view(paragraphs@);
    let n = paragraphs.len();
    if n as u64 > u32::MAX as u64 {
        return Err(AnchorSnapshotCodecError::LengthOverflow);
    }
    let paragraph_count = n as u32;
    if paragraph_count > limits.max_paragraphs {
        return Err(AnchorSnapshotCodecError::ParagraphLimitExceeded { actual: paragraph_count, limit: limits.max_paragraphs });
    }
    let mut seen: Vec<u64> = Vec::new();
    let mut greatest: u64 = 0;
    let mut total: u64 = 0;
    let mut i: usize = 0;
    while i < n
        invariant
            rs == records_view(paragraphs@),
            n == rs.len(),
            n <= limits.max_paragraphs,
            0 <= i <= n,
            seen@.len() == i,
            forall|j: int| 0 <= j < i ==> seen@[j] == (#[trigger] rs[j]).1,
            greatest == greatest_sequence(rs, i as int),
            total == prefix_text_bytes(rs, i as int),
            first_record_error(*lineage, next_sequence.spec_get(), rs, 0, limits)
                == first_record_error(*lineage, next_sequence.spec_get(), rs, i as int, limits),
        decreases n - i,
    {
        let record = &paragraphs[i];
        let sequence = record.id().sequence().get();
        if sequence == 0 || next_sequence.get() == 0 {
            return Err(AnchorSnapshotCodecError::ZeroSequence);
        }
        if !lineage_eq(&record.id().lineage(), lineage) {
            return Err(AnchorSnapshotCodecError::LengthOverflow);
        }
        let dup = contains_sequence(&seen, sequence);
        proof {
            if dup {
                let j = choose|j: int| 0 <= j < seen@.len() && seen@[j] == sequence;
                assert(rs[j].1 == sequence);
                assert(seen_before(rs, i as int, sequence));
            } else {
                assert forall|j: int| 0 <= j < i implies (#[trigger] rs[j]).1 != sequence by {
                    assert(seen@[j] == rs[j].1);
                }
            }
        }
        if dup {
            return Err(AnchorSnapshotCodecError::DuplicateSequence(ParagraphAnchorSequence(sequence)));
        }
        let len = str_len(record.semantic_text());
        if len as u64 > u32::MAX as u64 {
            return Err(AnchorSnapshotCodecError::LengthOverflow);
        }
        match validate_semantic_length(len as u32, &mut total, limits) {
            Err(e) => {
                return Err(e);
            },
            Ok(()) => {},
        }
        proof {
            lemma_prefix_text_bytes_step(rs, i as int);
        }
        seen.push(sequence);
        if sequence > greatest {
            greatest = sequence;
        }
        i = i + 1;
    }
    proof {
        assert(first_record_error(*lineage, next_sequence.spec_get(), rs, n as int, limits) is None);
        assert(first_record_error(*lineage, next_sequence.spec_get(), rs, 0, limits) is None);
        assert(!(rs.len() > u32::MAX));
        assert(!(rs.len() > limits.max_paragraphs));
        assert(ParagraphAnchorSequence(next_sequence.spec_get()) == next_sequence);
    }
    let res = if n > 0 {
        validate_next_sequence(next_sequence, Some(ParagraphAnchorSequence(greatest)))
    } else {
        validate_next_sequence(next_sequence, None)
    };
    proof {
        if n > 0 {
            assert(greatest == greatest_sequence(rs, rs.len() as int));
            if next_sequence.spec_get() <= greatest {
                assert(next_sequence_error(next_sequence.spec_get(), rs) is Some);
            } else {
                assert(next_sequence_error(next_sequence.spec_get(), rs) is None);
            }
        }
        match res {
            Ok(u) => { assert(u == ()); },
            Err(_) => {},
        }
    }
    res
}

/// Validates a snapshot against explicit limits.
pub fn validate_snapshot(snapshot: &ParagraphAnchorSnapshot, limits: AnchorSnapshotLimits) -> (r: Result<(), AnchorSnapshotCodecError>)
    ensures
        r == validate_spec(snapshot.spec_lineage(), snapshot.spec_next(), snapshot.spec_views(), limits),
{
    validate_records(&snapshot.lineage, snapshot.next_sequence, &snapshot.paragraphs, limits)
}

/* ---------------------------------------------------------------------------------------- */
/* Wire encoding                                                                            */
/* ---------------------------------------------------------------------------------------- */

/// The eight magic bytes that open every snapshot artifact (`OFANCHR1`).
pub open spec fn snapshot_magic() -> Seq<u8> {
    seq![0x4fu8, 0x46u8, 0x41u8, 0x4eu8, 0x43u8, 0x48u8, 0x52u8, 0x31u8]
}

/// Length of the fixed snapshot header.
pub const SNAPSHOT_HEADER_BYTES: usize = 40;

/// Length of the fixed part of one record (sequence and text length).
pub const RECORD_HEADER_BYTES: usize = 12;

/// Header: magic, version, flags, lineage, next sequence, paragraph count.
pub open spec fn header_bytes(lineage: DocumentLineageId, next: u64, count: u32) -> Seq<u8> {
    snapshot_magic() + le16(1) + le16(0) + lineage.0@ + le64(next) + le32(count)
}

/// One record: sequence, text length, UTF-8 text.
pub open spec fn record_bytes(v: AnchorView) -> Seq<u8> {
    le64(v.1) + le32(text_len(v) as u32) + utf8(v.2)
}

/// The records of the first `n` views, in order.
pub open spec fn records_bytes(vs: Seq<AnchorView>, n: int) -> Seq<u8>
    decreases n,
{
    if n <= 0 { Seq::empty() } else { records_bytes(vs, n - 1) + record_bytes(vs[n - 1]) }
}

/// The artifact that encodes a snapshot.
pub open spec fn snapshot_encoding(lineage: DocumentLineageId, next: u64, vs: Seq<AnchorView>) -> Seq<u8> {
    header_bytes(lineage, next, vs.len() as u32) + records_bytes(vs, vs.len() as int)
}

/// `b` is the encoding of snapshot `t` (lineage, next sequence, records), and `t` is admissible.
pub open spec fn valid_encoding(b: Seq<u8>, t: (DocumentLineageId, u64, Seq<AnchorView>), limits: AnchorSnapshotLimits) -> bool {
    &&& b == snapshot_encoding(t.0, t.1, t.2)
    &&& validate_spec(t.0, t.1, t.2, limits) is Ok
    &&& t.1 >= 1
}

/// What the decoder refuses while reading the fixed header, in reading order.
pub open spec fn header_error(b: Seq<u8>, limits: AnchorSnapshotLimits) -> Option<AnchorSnapshotCodecError> {
    if b.len() < 8 {
        Some(AnchorSnapshotCodecError::Truncated)
    } else if b.subrange(0, 8) != snapshot_magic() {
        Some(AnchorSnapshotCodecError::InvalidMagic)
    } else if b.len() < 10 {
        Some(AnchorSnapshotCodecError::Truncated)
    } else if from_le16(b, 8) != 1 {
        Some(AnchorSnapshotCodecError::UnsupportedVersion(from_le16(b, 8)))
    } else if b.len() < 12 {
        Some(AnchorSnapshotCodecError::Truncated)
    } else if from_le16(b, 10) != 0 {
        Some(AnchorSnapshotCodecError::UnsupportedFlags(from_le16(b, 10)))
    } else if b.len() < 36 {
        Some(AnchorSnapshotCodecError::Truncated)
    } else if from_le64(b, 28) == 0 {
        Some(AnchorSnapshotCodecError::ZeroSequence)
    } else if b.len() < 40 {
        Some(AnchorSnapshotCodecError::Truncated)
    } else if from_le32(b, 36) > limits.max_paragraphs {
        Some(AnchorSnapshotCodecError::ParagraphLimitExceeded { actual: from_le32(b, 36), limit: limits.max_paragraphs })
    } else {
        None
    }
}

proof fn lemma_first_record_error_none(
    lineage: DocumentLineageId,
    next: u64,
    vs: Seq<AnchorView>,
    k: int,
    i: int,
    limits: AnchorSnapshotLimits,
)
    requires
        0 <= k <= i < vs.len(),
        first_record_error(lineage, next, vs, k, limits) is None,
    ensures
        record_error(lineage, next, vs, i, limits) is None,
    decreases i - k,
{
    if k < i {
        lemma_first_record_error_none(lineage, next, vs, k + 1, i, limits);
    }
}

proof fn lemma_header_len(lineage: DocumentLineageId, next: u64, count: u32)
    ensures
        header_bytes(lineage, next, count).len() == 40,
{
}

impl ParagraphAnchorTable {
    /// A snapshot of the table's lineage, sequence frontier and records.
    pub fn snapshot(&self) -> (s: ParagraphAnchorSnapshot)
        ensures
            s.spec_lineage() == self.spec_lineage(),
            s.spec_next() == self.spec_next(),
            same_records(s.spec_records(), self.spec_records()),
            s.spec_views() == records_view(self.spec_records()),
            self.wf() ==> s.wf(),
    {
        proof {
            self.lemma_fields();
        }
        let s = ParagraphAnchorSnapshot {
            lineage: self.lineage,
            next_sequence: self.next_sequence,
            paragraphs: copy_records(&self.paragraphs),
        };
        assert(s.spec_views() =~= records_view(self.spec_records()));
        proof {
            if self.wf() {
                assert forall|i: int, j: int| 0 <= i < s.paragraphs@.len() && 0 <= j < s.paragraphs@.len() && i != j
                    implies (#[trigger] s.paragraphs@[i]).spec_id().spec_sequence() != (#[trigger] s.paragraphs@[j]).spec_id().spec_sequence() by {
                    assert(s.paragraphs@[i].spec_id() == self.paragraphs@[i].spec_id());
                    assert(s.paragraphs@[j].spec_id() == self.paragraphs@[j].spec_id());
                }
                assert forall|i: int| 0 <= i < s.paragraphs@.len() implies {
                    &&& (#[trigger] s.paragraphs@[i]).spec_id().spec_lineage() == s.lineage
                    &&& 1 <= s.paragraphs@[i].spec_id().spec_sequence() < s.next_sequence.0
                } by {
                    assert(s.paragraphs@[i].spec_id() == self.paragraphs@[i].spec_id());
                }
            }
        }
        s
    }
}

impl ParagraphAnchorSnapshot {
    /// Emits the versioned artifact, after admitting the snapshot under `limits`.
    pub fn encode(&self, limits: AnchorSnapshotLimits) -> (r: Result<Vec<u8>, AnchorSnapshotCodecError>)
        ensures
            match validate_spec(self.spec_lineage(), self.spec_next(), self.spec_views(), limits) {
                Err(e) => r == Err::<Vec<u8>, AnchorSnapshotCodecError>(e),
                Ok(_) => r matches Ok(b) && b@ == snapshot_encoding(self.spec_lineage(), self.spec_next(), self.spec_views()),
            },
    {
        match validate_snapshot(self, limits) {
            Err(e) => {
                return Err(e);
            },
            Ok(()) => {},
        }
        let ghost vs = self.spec_views();
        let n = self.paragraphs.len();
        let paragraph_count = n as u32;
        let mut bytes: Vec<u8> = Vec::new();
        bytes.push(0x4f);
        bytes.push(0x46);
        bytes.push(0x41);
        bytes.push(0x4e);
        bytes.push(0x43);
        bytes.push(0x48);
        bytes.push(0x52);
        bytes.push(0x31);
        push_le16(&mut bytes, SNAPSHOT_FORMAT_VERSION);
        push_le16(&mut bytes, 0);
        push_bytes(&mut bytes, self.lineage.as_bytes().as_slice());
        push_le64(&mut bytes, self.next_sequence.get());
        push_le32(&mut bytes, paragraph_count);
        assert(bytes@ =~= header_bytes(self.spec_lineage(), self.spec_next(), paragraph_count));
        let mut i: usize = 0;
        while i < n
            invariant
                vs == records_view(self.paragraphs@),
                n == vs.len(),
                n <= u32::MAX,
                0 <= i <= n,
                first_record_error(self.spec_lineage(), self.spec_next(), vs, 0, limits) is None,
                bytes@ == header_bytes(self.spec_lineage(), self.spec_next(), paragraph_count) + records_bytes(vs, i as int),
            decreases n - i,
        {
            let record = &self.paragraphs[i];
            let text = record.semantic_text().as_bytes();
            proof {
                lemma_first_record_error_none(self.spec_lineage(), self.spec_next(), vs, 0, i as int, limits);
                assert(text@ == utf8(vs[i as int].2));
            }
            push_le64(&mut bytes, record.id().sequence().get());
            push_le32(&mut bytes, text.len() as u32);
            push_bytes(&mut bytes, text);
            assert(bytes@ =~= header_bytes(self.spec_lineage(), self.spec_next(), paragraph_count) + records_bytes(vs, i + 1));
            i = i + 1;
        }
        Ok(bytes)
    }
}

/* ---------------------------------------------------------------------------------------- */
/* Decoding                                                                                 */
/* ---------------------------------------------------------------------------------------- */

/// `std::str::from_utf8`: the string slice whose bytes are `bytes`, or `None` exactly when
/// `bytes` is not valid UTF-8.
#[verifier::external_body]
fn str_from_utf8(bytes: &[u8]) -> (r: Option<&str>)
    ensures
        match r {
            Some(s) => utf8(s@) == bytes@,
            None => !valid_utf8(bytes@),
        },
{
    std::str::from_utf8(bytes).ok()
}

/// Record `v` is encoded in `b` at offset `off`.
pub open spec fn record_at(b: Seq<u8>, off: int, v: AnchorView) -> bool {
    &&& 0 <= off
    &&& text_len(v) <= u32::MAX
    &&& off + record_bytes(v).len() <= b.len()
    &&& b.subrange(off, off + record_bytes(v).len()) == record_bytes(v)
}

proof fn lemma_record_at(b: Seq<u8>, off: int, v: AnchorView)
    requires
        record_at(b, off, v),
    ensures
        record_bytes(v).len() == 12 + text_len(v),
        off + 12 + text_len(v) <= b.len(),
        from_le64(b, off) == v.1,
        from_le32(b, off + 8) == text_len(v),
        b.subrange(off + 12, off + 12 + text_len(v)) == utf8(v.2),
        valid_utf8(utf8(v.2)),
{
    let r = record_bytes(v);
    let s = b.subrange(off, off + r.len());
    assert(b.subrange(off, off + 8) =~= s.subrange(0, 8));
    assert(s.subrange(0, 8) =~= le64(v.1));
    assert(r =~= le64(v.1) + le32(text_len(v) as u32) + utf8(v.2));
    assert(s == r);
    assert(r.subrange(8, 12) =~= le32(text_len(v) as u32));
    assert(b.subrange(off + 8, off + 12) =~= s.subrange(8, 12));
    assert(r.subrange(12, 12 + text_len(v)) =~= utf8(v.2));
    assert(b.subrange(off + 12, off + 12 + text_len(v)) =~= s.subrange(12, 12 + text_len(v)));
    lemma_read_encoded(b, off, 0, 0, v.1);
    lemma_read_encoded(b, off + 8, 0, text_len(v) as u32, 0);
    lemma_utf8_valid(v.2);
}

proof fn lemma_records_bytes_prefix(vs: Seq<AnchorView>, i: int, n: int)
    requires
        0 <= i <= n <= vs.len(),
    ensures
        records_bytes(vs, i).len() <= records_bytes(vs, n).len(),
        records_bytes(vs, n).subrange(0, records_bytes(vs, i).len() as int) == records_bytes(vs, i),
    decreases n - i,
{
    if i < n {
        lemma_records_bytes_prefix(vs, i, n - 1);
        assert(records_bytes(vs, n).subrange(0, records_bytes(vs, i).len() as int)
            =~= records_bytes(vs, n - 1).subrange(0, records_bytes(vs, i).len() as int));
    } else {
        assert(records_bytes(vs, n).subrange(0, records_bytes(vs, n).len() as int) =~= records_bytes(vs, n));
    }
}

proof fn lemma_same_prefix(a: Seq<AnchorView>, b: Seq<AnchorView>, i: int)
    requires
        0 <= i <= a.len(),
        i <= b.len(),
        a.subrange(0, i) == b.subrange(0, i),
    ensures
        records_bytes(a, i) == records_bytes(b, i),
        prefix_text_bytes(a, i) == prefix_text_bytes(b, i),
        greatest_sequence(a, i) == greatest_sequence(b, i),
    decreases i,
{
    if i > 0 {
        assert(a.subrange(0, i - 1) =~= b.subrange(0, i - 1)) by {
            assert forall|j: int| 0 <= j < i - 1 implies #[trigger] a.subrange(0, i - 1)[j] == b.subrange(0, i - 1)[j] by {
                assert(a.subrange(0, i)[j] == b.subrange(0, i)[j]);
            }
        }
        assert(a[i - 1] == a.subrange(0, i)[i - 1]);
        assert(b[i - 1] == b.subrange(0, i)[i - 1]);
        lemma_same_prefix(a, b, i - 1);
    }
}

/// What a valid encoding holds in its header.
proof fn lemma_valid_header(b: Seq<u8>, t: (DocumentLineageId, u64, Seq<AnchorView>), limits: AnchorSnapshotLimits)
    requires
        valid_encoding(b, t, limits),
    ensures
        b.len() == 40 + records_bytes(t.2, t.2.len() as int).len(),
        b.subrange(0, 8) == snapshot_magic(),
        from_le16(b, 8) == 1,
        from_le16(b, 10) == 0,
        b.subrange(12, 28) == t.0.0@,
        from_le64(b, 28) == t.1,
        from_le32(b, 36) == t.2.len(),
        t.2.len() <= limits.max_paragraphs,
{
    let h = header_bytes(t.0, t.1, t.2.len() as u32);
    assert(b.subrange(0, 40) =~= h);
    assert(b.subrange(0, 8) =~= snapshot_magic());
    assert(b.subrange(8, 10) =~= le16(1));
    assert(b.subrange(10, 12) =~= le16(0));
    assert(b.subrange(12, 28) =~= t.0.0@);
    assert(b.subrange(28, 36) =~= le64(t.1));
    assert(b.subrange(36, 40) =~= le32(t.2.len() as u32));
    lemma_read_encoded(b, 8, 1, 0, 0);
    lemma_read_encoded(b, 10, 0, 0, 0);
    lemma_read_encoded(b, 28, 0, 0, t.1);
    lemma_read_encoded(b, 36, 0, t.2.len() as u32, 0);
}

/// What a valid encoding holds at its `i`-th record.
proof fn lemma_valid_record(b: Seq<u8>, t: (DocumentLineageId, u64, Seq<AnchorView>), i: int, limits: AnchorSnapshotLimits)
    requires
        valid_encoding(b, t, limits),
        0 <= i < t.2.len(),
    ensures
        record_at(b, 40 + records_bytes(t.2, i).len() as int, t.2[i]),
        t.2[i].0 == t.0,
        t.2[i].1 != 0,
        !seen_before(t.2, i, t.2[i].1),
        semantic_length_error(text_len(t.2[i]), prefix_text_bytes(t.2, i), limits) is None,
{
    let vs = t.2;
    let n = vs.len() as int;
    lemma_header_len(t.0, t.1, n as u32);
    lemma_first_record_error_none(t.0, t.1, vs, 0, i, limits);
    assert(record_error(t.0, t.1, vs, i, limits) is None);
    assert(text_len(vs[i]) <= u32::MAX);
    lemma_records_bytes_prefix(vs, i + 1, n);
    let h = header_bytes(t.0, t.1, n as u32);
    let rb = records_bytes(vs, n);
    let x: int = records_bytes(vs, i).len() as int;
    let rec = record_bytes(vs[i]);
    let y: int = x + rec.len();
    assert(records_bytes(vs, i + 1) == records_bytes(vs, i) + rec);
    assert(b =~= h + rb);
    assert(rb.subrange(x, y) =~= rb.subrange(0, y).subrange(x, y));
    assert((records_bytes(vs, i) + rec).subrange(x, y) =~= rec);
    assert(b.subrange(40 + x, 40 + y) =~= rb.subrange(x, y));
}

/// The refusal for `n` bytes wanted at `off` when fewer remain: an offset past the address
/// space overflows, anything else is truncated.
pub open spec fn short_read_error(off: int, n: int) -> AnchorSnapshotCodecError {
    if off + n > usize::MAX {
        AnchorSnapshotCodecError::LengthOverflow
    } else {
        AnchorSnapshotCodecError::Truncated
    }
}

/// The decoder's reading of the record at `off`, after records with sequences `seen` and
/// `total` text bytes: the record's view and the offset after it, or the refusal, in reading
/// order (sequence, duplicate, length field, length admission, text, UTF-8).
pub open spec fn record_step(
    b: Seq<u8>,
    off: int,
    lineage: DocumentLineageId,
    seen: Seq<u64>,
    total: int,
    limits: AnchorSnapshotLimits,
) -> Result<(AnchorView, int), AnchorSnapshotCodecError> {
    if off + 8 > b.len() {
        Err(short_read_error(off, 8))
    } else if from_le64(b, off) == 0 {
        Err(AnchorSnapshotCodecError::ZeroSequence)
    } else if seen.contains(from_le64(b, off)) {
        Err(AnchorSnapshotCodecError::DuplicateSequence(ParagraphAnchorSequence(from_le64(b, off))))
    } else if off + 12 > b.len() {
        Err(short_read_error(off + 8, 4))
    } else {
        let len = from_le32(b, off + 8) as int;
        match semantic_length_error(len, total, limits) {
            Some(e) => Err(e),
            None => if off + 12 + len > b.len() {
                Err(short_read_error(off + 12, len))
            } else if !valid_utf8(b.subrange(off + 12, off + 12 + len)) {
                Err(AnchorSnapshotCodecError::InvalidUtf8)
            } else {
                Ok(((lineage, from_le64(b, off), decode_utf8(b.subrange(off + 12, off + 12 + len))), off + 12 + len))
            },
        }
    }
}

/// The decoder's reading of `n` consecutive records from `off`: their views and the offset
/// after them, or the first refusal.
pub open spec fn records_read(
    b: Seq<u8>,
    off: int,
    lineage: DocumentLineageId,
    seen: Seq<u64>,
    total: int,
    n: nat,
    limits: AnchorSnapshotLimits,
) -> Result<(Seq<AnchorView>, int), AnchorSnapshotCodecError>
    decreases n,
{
    if n == 0 {
        Ok((Seq::empty(), off))
    } else {
        match record_step(b, off, lineage, seen, total, limits) {
            Err(e) => Err(e),
            Ok((v, o)) => prefix_records(seq![v],
                records_read(b, o, lineage, seen.push(v.1), total + text_len(v), (n - 1) as nat, limits)),
        }
    }
}

/// Prepends `p` to the records of a successful reading.
pub open spec fn prefix_records(
    p: Seq<AnchorView>,
    x: Result<(Seq<AnchorView>, int), AnchorSnapshotCodecError>,
) -> Result<(Seq<AnchorView>, int), AnchorSnapshotCodecError> {
    match x {
        Err(e) => Err(e),
        Ok((vs, o)) => Ok((p + vs, o)),
    }
}

/// What decoding `b` gives: the header refusal, the first record refusal, trailing bytes, a
/// sequence frontier not after the live anchors, an inadmissible snapshot, or the snapshot
/// (lineage, next sequence, records).
pub open spec fn decode_spec(b: Seq<u8>, limits: AnchorSnapshotLimits)
    -> Result<(DocumentLineageId, u64, Seq<AnchorView>), AnchorSnapshotCodecError>
{
    match header_error(b, limits) {
        Some(e) => Err(e),
        None => {
            let lineage = choose|l: DocumentLineageId| l.0@ == b.subrange(12, 28);
            let next = from_le64(b, 28);
            match records_read(b, 40, lineage, Seq::empty(), 0, from_le32(b, 36) as nat, limits) {
                Err(e) => Err(e),
                Ok((vs, off)) => if off != b.len() {
                    Err(AnchorSnapshotCodecError::TrailingBytes)
                } else {
                    match next_sequence_error(next, vs) {
                        Some(e) => Err(e),
                        None => match validate_spec(lineage, next, vs, limits) {
                            Err(e) => Err(e),
                            Ok(_) => Ok((lineage, next, vs)),
                        },
                    }
                },
            }
        },
    }
}

proof fn lemma_prefix_records_push(p: Seq<AnchorView>, v: AnchorView, x: Result<(Seq<AnchorView>, int), AnchorSnapshotCodecError>)
    ensures
        prefix_records(p, prefix_records(seq![v], x)) == prefix_records(p.push(v), x),
{
    match x {
        Err(e) => {},
        Ok((vs, o)) => {
            assert(p + (seq![v] + vs) =~= p.push(v) + vs);
        },
    }
}

/// Reads the fixed-width fields of the artifact front to back.
struct SnapshotReader<'a> {
    bytes: &'a [u8],
    offset: usize,
}

impl<'a> SnapshotReader<'a> {
    fn new(bytes: &'a [u8]) -> (r: Self)
        ensures
            r.bytes@ == bytes@,
            r.offset == 0,
    {
        SnapshotReader { bytes, offset: 0 }
    }

    fn take_slice(&mut self, length: usize) -> (r: Result<&'a [u8], AnchorSnapshotCodecError>)
        requires
            old(self).offset <= old(self).bytes@.len(),
        ensures
            final(self).bytes@ == old(self).bytes@,
            final(self).offset <= final(self).bytes@.len(),
            match r {
                Ok(s) => {
                    &&& old(self).offset + length <= old(self).bytes@.len()
                    &&& s@ == old(self).bytes@.subrange(old(self).offset as int, old(self).offset + length)
                    &&& final(self).offset == old(self).offset + length
                },
                Err(e) => {
                    &&& old(self).offset + length > old(self).bytes@.len()
                    &&& e == (if old(self).offset + length > usize::MAX {
                        AnchorSnapshotCodecError::LengthOverflow
                    } else {
                        AnchorSnapshotCodecError::Truncated
                    })
                },
            },
    {
        let len = self.bytes.len();
        match self.offset.checked_add(length) {
            None => Err(AnchorSnapshotCodecError::LengthOverflow),
            Some(end) => {
                if end > len {
                    Err(AnchorSnapshotCodecError::Truncated)
                } else {
                    let s = slice_subrange(self.bytes, self.offset, end);
                    self.offset = end;
                    Ok(s)
                }
            },
        }
    }

    fn take_u16(&mut self) -> (r: Result<u16, AnchorSnapshotCodecError>)
        requires
            old(self).offset <= old(self).bytes@.len(),
        ensures
            final(self).bytes@ == old(self).bytes@,
            final(self).offset <= final(self).bytes@.len(),
            match r {
                Ok(v) => old(self).offset + 2 <= old(self).bytes@.len() && v == from_le16(old(self).bytes@, old(self).offset as int)
                    && final(self).offset == old(self).offset + 2,
                Err(e) => old(self).offset + 2 > old(self).bytes@.len() && e == short_read_error(old(self).offset as int, 2),
            },
    {
        match self.take_slice(2) {
            Err(e) => Err(e),
            Ok(s) => Ok(read_le16(s, 0)),
        }
    }

    fn take_u32(&mut self) -> (r: Result<u32, AnchorSnapshotCodecError>)
        requires
            old(self).offset <= old(self).bytes@.len(),
        ensures
            final(self).bytes@ == old(self).bytes@,
            final(self).offset <= final(self).bytes@.len(),
            match r {
                Ok(v) => old(self).offset + 4 <= old(self).bytes@.len() && v == from_le32(old(self).bytes@, old(self).offset as int)
                    && final(self).offset == old(self).offset + 4,
                Err(e) => old(self).offset + 4 > old(self).bytes@.len() && e == short_read_error(old(self).offset as int, 4),
            },
    {
        match self.take_slice(4) {
            Err(e) => Err(e),
            Ok(s) => Ok(read_le32(s, 0)),
        }
    }

    fn take_u64(&mut self) -> (r: Result<u64, AnchorSnapshotCodecError>)
        requires
            old(self).offset <= old(self).bytes@.len(),
        ensures
            final(self).bytes@ == old(self).bytes@,
            final(self).offset <= final(self).bytes@.len(),
            match r {
                Ok(v) => old(self).offset + 8 <= old(self).bytes@.len() && v == from_le64(old(self).bytes@, old(self).offset as int)
                    && final(self).offset == old(self).offset + 8,
                Err(e) => old(self).offset + 8 > old(self).bytes@.len() && e == short_read_error(old(self).offset as int, 8),
            },
    {
        match self.take_slice(8) {
            Err(e) => Err(e),
            Ok(s) => Ok(read_le64(s, 0)),
        }
    }

    fn take_lineage(&mut self) -> (r: Result<DocumentLineageId, AnchorSnapshotCodecError>)
        requires
            old(self).offset <= old(self).bytes@.len(),
        ensures
            final(self).bytes@ == old(self).bytes@,
            final(self).offset <= final(self).bytes@.len(),
            match r {
                Ok(l) => old(self).offset + 16 <= old(self).bytes@.len()
                    && l.0@ == old(self).bytes@.subrange(old(self).offset as int, old(self).offset + 16)
                    && final(self).offset == old(self).offset + 16,
                Err(e) => old(self).offset + 16 > old(self).bytes@.len() && e == short_read_error(old(self).offset as int, 16),
            },
    {
        match self.take_slice(16) {
            Err(e) => Err(e),
            Ok(s) => {
                let a: [u8; 16] = [
                    s[0], s[1], s[2], s[3], s[4], s[5], s[6], s[7],
                    s[8], s[9], s[10], s[11], s[12], s[13], s[14], s[15],
                ];
                assert(a@ =~= s@);
                Ok(DocumentLineageId::from_bytes(a))
            },
        }
    }

    fn is_finished(&self) -> (b: bool)
        ensures
            b == (self.offset == self.bytes@.len()),
    {
        self.offset == self.bytes.len()
    }
}

/// Whether `s` is the snapshot magic.
fn is_snapshot_magic(s: &[u8]) -> (r: bool)
    requires
        s@.len() == 8,
    ensures
        r == (s@ == snapshot_magic()),
{
    let r = s[0] == 0x4f && s[1] == 0x46 && s[2] == 0x41 && s[3] == 0x4e && s[4] == 0x43 && s[5] == 0x48
        && s[6] == 0x52 && s[7] == 0x31;
    proof {
        if r {
            assert(s@ =~= snapshot_magic());
        }
        if s@ == snapshot_magic() {
            assert(s@[0] == 0x4f && s@[1] == 0x46 && s@[2] == 0x41 && s@[3] == 0x4e);
            assert(s@[4] == 0x43 && s@[5] == 0x48 && s@[6] == 0x52 && s@[7] == 0x31);
        }
    }
    r
}

/// Reads a record's sequence, refusing the reserved sequence zero.
fn read_nonzero_sequence(reader: &mut SnapshotReader) -> (r: Result<ParagraphAnchorSequence, AnchorSnapshotCodecError>)
    requires
        old(reader).offset <= old(reader).bytes@.len(),
    ensures
        final(reader).bytes@ == old(reader).bytes@,
        final(reader).offset <= final(reader).bytes@.len(),
        match r {
            Ok(s) => {
                &&& old(reader).offset + 8 <= old(reader).bytes@.len()
                &&& s.0 == from_le64(old(reader).bytes@, old(reader).offset as int)
                &&& s.0 != 0
                &&& final(reader).offset == old(reader).offset + 8
            },
            Err(e) => if old(reader).offset + 8 > old(reader).bytes@.len() {
                e == short_read_error(old(reader).offset as int, 8)
            } else {
                from_le64(old(reader).bytes@, old(reader).offset as int) == 0 && e == AnchorSnapshotCodecError::ZeroSequence
            },
        },
{
    let raw = match reader.take_u64() {
        Err(e) => {
            return Err(e);
        },
        Ok(v) => v,
    };
    if raw == 0 {
        return Err(AnchorSnapshotCodecError::ZeroSequence);
    }
    Ok(ParagraphAnchorSequence(raw))
}

/// Decodes the record at the reader's position: sequence, admitted length, UTF-8 text.
fn decode_record(
    reader: &mut SnapshotReader,
    lineage: DocumentLineageId,
    seen: &Vec<u64>,
    total: &mut u64,
    limits: AnchorSnapshotLimits,
) -> (r: Result<ParagraphAnchorRecord, AnchorSnapshotCodecError>)
    requires
        old(reader).offset <= old(reader).bytes@.len(),
    ensures
        final(reader).bytes@ == old(reader).bytes@,
        final(reader).offset <= final(reader).bytes@.len(),
        r matches Ok(rec) ==> {
            &&& record_at(old(reader).bytes@, old(reader).offset as int, anchor_view(rec))
            &&& anchor_view(rec).0 == lineage
            &&& anchor_view(rec).1 != 0
            &&& !seen@.contains(anchor_view(rec).1)
            &&& semantic_length_error(text_len(anchor_view(rec)), *old(total) as int, limits) is None
            &&& final(reader).offset == old(reader).offset + record_bytes(anchor_view(rec)).len()
            &&& *final(total) == *old(total) + text_len(anchor_view(rec))
        },
        forall|v: AnchorView|
            #![trigger record_at(old(reader).bytes@, old(reader).offset as int, v)]
            record_at(old(reader).bytes@, old(reader).offset as int, v) && v.0 == lineage && v.1 != 0
                && !seen@.contains(v.1) && semantic_length_error(text_len(v), *old(total) as int, limits) is None
                ==> (r matches Ok(rec) && anchor_view(rec) == v),
        match record_step(old(reader).bytes@, old(reader).offset as int, lineage, seen@, *old(total) as int, limits) {
            Err(e) => r == Err::<ParagraphAnchorRecord, AnchorSnapshotCodecError>(e),
            Ok((v, o)) => r matches Ok(rec) && anchor_view(rec) == v && final(reader).offset == o
                && *final(total) == *old(total) + text_len(v),
        },
{
    let ghost b = reader.bytes@;
    let ghost off = reader.offset as int;
    proof {
        assert forall|v: AnchorView| #[trigger] record_at(b, off, v) implies {
            &&& record_bytes(v).len() == 12 + text_len(v)
            &&& off + 12 + text_len(v) <= b.len()
            &&& from_le64(b, off) == v.1
            &&& from_le32(b, off + 8) == text_len(v)
            &&& b.subrange(off + 12, off + 12 + text_len(v)) == utf8(v.2)
            &&& valid_utf8(utf8(v.2))
        } by {
            lemma_record_at(b, off, v);
        }
    }
    let sequence = match read_nonzero_sequence(reader) {
        Err(e) => {
            return Err(e);
        },
        Ok(s) => s,
    };
    if contains_sequence(seen, sequence.get()) {
        return Err(AnchorSnapshotCodecError::DuplicateSequence(sequence));
    }
    let semantic_len = match reader.take_u32() {
        Err(e) => {
            return Err(e);
        },
        Ok(v) => v,
    };
    match validate_semantic_length(semantic_len, total, limits) {
        Err(e) => {
            return Err(e);
        },
        Ok(()) => {},
    }
    let text_bytes = match reader.take_slice(semantic_len as usize) {
        Err(e) => {
            return Err(e);
        },
        Ok(t) => t,
    };
    let text = match str_from_utf8(text_bytes) {
        None => {
            return Err(AnchorSnapshotCodecError::InvalidUtf8);
        },
        Some(t) => t,
    };
    let rec = ParagraphAnchorRecord::new(ParagraphAnchorId::new(lineage, sequence), text.to_owned());
    proof {
        let v = anchor_view(rec);
        assert(utf8(v.2) == text_bytes@);
        lemma_le_roundtrip_bytes(b, off);
        lemma_le_roundtrip_bytes_short(b, off + 8);
        assert(b.subrange(off, off + 12 + semantic_len) =~= record_bytes(v));
        encode_utf8_decode_utf8(v.2);
        assert(text_bytes@ =~= b.subrange(off + 12, off + 12 + semantic_len));
        assert(v.2 == decode_utf8(b.subrange(off + 12, off + 12 + semantic_len)));
        lemma_utf8_valid(v.2);
        assert(valid_utf8(b.subrange(off + 12, off + 12 + semantic_len)));
        assert(text_len(v) == semantic_len);
        assert(record_step(b, off, lineage, seen@, *old(total) as int, limits)
            == Ok::<(AnchorView, int), AnchorSnapshotCodecError>((v, off + 12 + semantic_len)));
        assert forall|v2: AnchorView|
            record_at(b, off, v2) && v2.0 == lineage && v2.1 != 0 && !seen@.contains(v2.1)
                && semantic_length_error(text_len(v2), *old(total) as int, limits) is None
            implies #[trigger] anchor_view(rec) == v2 by {
            lemma_record_at(b, off, v2);
            encode_utf8_decode_utf8(v2.2);
            encode_utf8_decode_utf8(v.2);
        }
    }
    Ok(rec)
}

/// A decoder state that agrees with snapshot `t` on its header and first `i` records.
pub open spec fn decode_agrees(
    t: (DocumentLineageId, u64, Seq<AnchorView>),
    lineage: DocumentLineageId,
    next: u64,
    count: u32,
    rv: Seq<AnchorView>,
    i: int,
) -> bool {
    &&& t.0 == lineage
    &&& t.1 == next
    &&& t.2.len() == count
    &&& t.2.subrange(0, i) == rv
}

impl ParagraphAnchorSnapshot {
    /// Decodes a versioned artifact under `limits`. The result is exactly the snapshot whose
    /// admissible encoding the bytes are; anything else is refused.
    #[verifier::rlimit(40)]
    pub fn decode(bytes: &[u8], limits: AnchorSnapshotLimits) -> (r: Result<Self, AnchorSnapshotCodecError>)
        ensures
            header_error(bytes@, limits) matches Some(e) ==> r == Err::<Self, AnchorSnapshotCodecError>(e),
            r matches Ok(s) ==> valid_encoding(bytes@, (s.spec_lineage(), s.spec_next(), s.spec_views()), limits) && s.wf(),
            forall|t: (DocumentLineageId, u64, Seq<AnchorView>)| #[trigger] valid_encoding(bytes@, t, limits)
                ==> (r matches Ok(s) && s.spec_lineage() == t.0 && s.spec_next() == t.1 && s.spec_views() == t.2),
            match decode_spec(bytes@, limits) {
                Err(e) => r == Err::<Self, AnchorSnapshotCodecError>(e),
                Ok(t) => r matches Ok(s) && s.spec_lineage() == t.0 && s.spec_next() == t.1 && s.spec_views() == t.2,
            },
    {
        let ghost b = bytes@;
        let mut reader = SnapshotReader::new(bytes);
        proof {
            assert forall|t: (DocumentLineageId, u64, Seq<AnchorView>)| #[trigger] valid_encoding(b, t, limits) implies {
                &&& b.len() == 40 + records_bytes(t.2, t.2.len() as int).len()
                &&& b.subrange(0, 8) == snapshot_magic()
                &&& from_le16(b, 8) == 1
                &&& from_le16(b, 10) == 0
                &&& b.subrange(12, 28) == t.0.0@
                &&& from_le64(b, 28) == t.1
                &&& from_le32(b, 36) == t.2.len()
                &&& t.2.len() <= limits.max_paragraphs
            } by {
                lemma_valid_header(b, t, limits);
            }
        }
        let magic = match reader.take_slice(8) {
            Err(e) => {
                return Err(e);
            },
            Ok(m) => m,
        };
        if !is_snapshot_magic(magic) {
            return Err(AnchorSnapshotCodecError::InvalidMagic);
        }
        let version = match reader.take_u16() {
            Err(e) => {
                return Err(e);
            },
            Ok(v) => v,
        };
        if version != SNAPSHOT_FORMAT_VERSION {
            return Err(AnchorSnapshotCodecError::UnsupportedVersion(version));
        }
        let flags = match reader.take_u16() {
            Err(e) => {
                return Err(e);
            },
            Ok(v) => v,
        };
        if flags != 0 {
            return Err(AnchorSnapshotCodecError::UnsupportedFlags(flags));
        }
        let lineage = match reader.take_lineage() {
            Err(e) => {
                return Err(e);
            },
            Ok(l) => l,
        };
        let next_raw = match reader.take_u64() {
            Err(e) => {
                return Err(e);
            },
            Ok(v) => v,
        };
        if next_raw == 0 {
            return Err(AnchorSnapshotCodecError::ZeroSequence);
        }
        let next_sequence = ParagraphAnchorSequence(next_raw);
        let paragraph_count = match reader.take_u32() {
            Err(e) => {
                return Err(e);
            },
            Ok(v) => v,
        };
        if paragraph_count > limits.max_paragraphs {
            return Err(AnchorSnapshotCodecError::ParagraphLimitExceeded { actual: paragraph_count, limit: limits.max_paragraphs });
        }
        proof {
            lemma_le_roundtrip_bytes(b, 8);
            lemma_le_roundtrip_bytes(b, 10);
            lemma_le_roundtrip_bytes(b, 28);
            lemma_le_roundtrip_bytes_short(b, 36);
            assert(b.subrange(0, 40) =~= header_bytes(lineage, next_raw, paragraph_count));
            assert(header_error(b, limits) is None);
            assert(records_view(Seq::<ParagraphAnchorRecord>::empty()) =~= Seq::<AnchorView>::empty());
            assert forall|t: (DocumentLineageId, u64, Seq<AnchorView>)| #[trigger] valid_encoding(b, t, limits)
                implies decode_agrees(t, lineage, next_raw, paragraph_count, Seq::<AnchorView>::empty(), 0) by {
                assert(lineage.0@ =~= t.0.0@);
                assert(lineage.0 == t.0.0);
                assert(t.2.subrange(0, 0) =~= Seq::<AnchorView>::empty());
            }
            let cl = choose|l: DocumentLineageId| l.0@ == b.subrange(12, 28);
            assert(lineage.0@ == b.subrange(12, 28));
            assert(cl.0@ =~= lineage.0@);
            assert(cl.0 == lineage.0);
            assert(cl == lineage);
            let whole = records_read(b, 40, lineage, Seq::empty(), 0, paragraph_count as nat, limits);
            match whole {
                Err(e) => {},
                Ok((vs, o)) => {
                    assert(Seq::<AnchorView>::empty() + vs =~= vs);
                },
            }
            assert(whole == prefix_records(records_view(Seq::<ParagraphAnchorRecord>::empty()), whole));
            assert(Seq::<u64>::empty() =~= seq![]);
        }
        let ghost whole = records_read(b, 40, lineage, Seq::empty(), 0, paragraph_count as nat, limits);
        let mut paragraphs: Vec<ParagraphAnchorRecord> = Vec::new();
        let mut seen: Vec<u64> = Vec::new();
        proof {
            assert(seen@ =~= Seq::<u64>::empty());
        }
        let mut total: u64 = 0;
        let mut greatest: u64 = 0;
        let mut i: u32 = 0;
        while i < paragraph_count
            invariant
                b == bytes@,
                reader.bytes@ == b,
                reader.offset <= b.len(),
                b.len() >= 40,
                header_error(b, limits) is None,
                0 <= i <= paragraph_count,
                paragraphs@.len() == i,
                seen@.len() == i,
                forall|j: int| 0 <= j < i ==> seen@[j] == (#[trigger] records_view(paragraphs@)[j]).1,
                total == prefix_text_bytes(records_view(paragraphs@), i as int),
                greatest == greatest_sequence(records_view(paragraphs@), i as int),
                reader.offset == 40 + records_bytes(records_view(paragraphs@), i as int).len(),
                b.subrange(0, reader.offset as int) == header_bytes(lineage, next_raw, paragraph_count)
                    + records_bytes(records_view(paragraphs@), i as int),
                forall|t: (DocumentLineageId, u64, Seq<AnchorView>)| #[trigger] valid_encoding(b, t, limits)
                    ==> decode_agrees(t, lineage, next_raw, paragraph_count, records_view(paragraphs@), i as int),
                whole == records_read(b, 40, lineage, Seq::empty(), 0, paragraph_count as nat, limits),
                (choose|l: DocumentLineageId| l.0@ == b.subrange(12, 28)) == lineage,
                next_raw == from_le64(b, 28),
                paragraph_count == from_le32(b, 36),
                whole == prefix_records(records_view(paragraphs@),
                    records_read(b, reader.offset as int, lineage, seen@, total as int, (paragraph_count - i) as nat, limits)),
            decreases paragraph_count - i,
        {
            let ghost rv = records_view(paragraphs@);
            let ghost off = reader.offset as int;
            let ghost total_before = total;
            proof {
                assert forall|t: (DocumentLineageId, u64, Seq<AnchorView>)| #[trigger] valid_encoding(b, t, limits) implies {
                    &&& record_at(b, off, t.2[i as int])
                    &&& t.2[i as int].0 == lineage
                    &&& t.2[i as int].1 != 0
                    &&& !seen@.contains(t.2[i as int].1)
                    &&& semantic_length_error(text_len(t.2[i as int]), total as int, limits) is None
                } by {
                    lemma_valid_record(b, t, i as int, limits);
                    assert(rv.subrange(0, i as int) =~= rv);
                    lemma_same_prefix(t.2, rv, i as int);
                    let x = t.2[i as int].1;
                    if seen@.contains(x) {
                        let j = choose|j: int| 0 <= j < seen@.len() && seen@[j] == x;
                        assert(rv[j] == t.2.subrange(0, i as int)[j]);
                        assert(t.2[j].1 == x);
                        assert(seen_before(t.2, i as int, x));
                    }
                }
            }
            let ghost seen0 = seen@;
            let ghost n = (paragraph_count - i) as nat;
            let rec = match decode_record(&mut reader, lineage, &seen, &mut total, limits) {
                Err(e) => {
                    proof {
                        assert(records_read(b, off, lineage, seen0, total_before as int, n, limits)
                            == Err::<(Seq<AnchorView>, int), AnchorSnapshotCodecError>(e));
                        assert(whole == Err::<(Seq<AnchorView>, int), AnchorSnapshotCodecError>(e));
                        assert(decode_spec(b, limits) == Err::<(DocumentLineageId, u64, Seq<AnchorView>), AnchorSnapshotCodecError>(e));
                    }
                    return Err(e);
                },
                Ok(rec) => rec,
            };
            let sequence = rec.id().sequence().get();
            seen.push(sequence);
            if sequence > greatest {
                greatest = sequence;
            }
            paragraphs.push(rec);
            proof {
                let v = anchor_view(rec);
                let rv2 = records_view(paragraphs@);
                assert(rv2 =~= rv.push(v));
                assert(rv2.subrange(0, i as int) =~= rv.subrange(0, i as int));
                lemma_same_prefix(rv2, rv, i as int);
                assert(b.subrange(0, reader.offset as int) =~= b.subrange(0, off) + b.subrange(off, reader.offset as int));
                assert forall|j: int| 0 <= j < i + 1 implies seen@[j] == (#[trigger] rv2[j]).1 by {
                    if j < i {
                        assert(rv2[j] == rv[j]);
                    }
                }
                let rest = records_read(b, reader.offset as int, lineage, seen@, total as int, (n - 1) as nat, limits);
                assert(seen@ =~= seen0.push(v.1));
                assert(records_read(b, off, lineage, seen0, total_before as int, n, limits) == prefix_records(seq![v], rest));
                lemma_prefix_records_push(rv, v, rest);
                assert forall|t: (DocumentLineageId, u64, Seq<AnchorView>)| #[trigger] valid_encoding(b, t, limits)
                    implies decode_agrees(t, lineage, next_raw, paragraph_count, rv2, i + 1) by {
                    assert(record_at(b, off, t.2[i as int]));
                    assert(t.2.subrange(0, i + 1) =~= t.2.subrange(0, i as int).push(t.2[i as int]));
                }
            }
            i = i + 1;
        }
        let ghost rv = records_view(paragraphs@);
        proof {
            assert(rv + Seq::<AnchorView>::empty() =~= rv);
            assert(whole == Ok::<(Seq<AnchorView>, int), AnchorSnapshotCodecError>((rv, reader.offset as int)));
            assert forall|t: (DocumentLineageId, u64, Seq<AnchorView>)| #[trigger] valid_encoding(b, t, limits) implies {
                &&& reader.offset == b.len()
                &&& rv == t.2
            } by {
                lemma_valid_header(b, t, limits);
                assert(t.2.subrange(0, t.2.len() as int) =~= t.2);
            }
        }
        if !reader.is_finished() {
            return Err(AnchorSnapshotCodecError::TrailingBytes);
        }
        if paragraph_count > 0 && next_raw <= greatest {
            return Err(AnchorSnapshotCodecError::NextSequenceNotAfterLiveAnchors {
                next: next_sequence,
                greatest_live: ParagraphAnchorSequence(greatest),
            });
        }
        let snapshot = ParagraphAnchorSnapshot { lineage, next_sequence, paragraphs };
        match validate_snapshot(&snapshot, limits) {
            Err(e) => {
                return Err(e);
            },
            Ok(()) => {},
        }
        proof {
            assert(b.subrange(0, b.len() as int) =~= b);
            assert(snapshot.spec_views() == rv);
            lemma_admissible_records_wf(lineage, next_raw, snapshot.paragraphs@, limits);
        }
        Ok(snapshot)
    }
}

proof fn lemma_greatest_bound(vs: Seq<AnchorView>, n: int, i: int)
    requires
        0 <= i < n <= vs.len(),
    ensures
        vs[i].1 <= greatest_sequence(vs, n),
    decreases n,
{
    if i < n - 1 {
        lemma_greatest_bound(vs, n - 1, i);
    }
}

/// An admissible snapshot with a nonzero sequence frontier has well-formed records.
pub proof fn lemma_admissible_records_wf(
    lineage: DocumentLineageId,
    next: u64,
    rs: Seq<ParagraphAnchorRecord>,
    limits: AnchorSnapshotLimits,
)
    requires
        validate_spec(lineage, next, records_view(rs), limits) is Ok,
        next >= 1,
    ensures
        records_wf(lineage, next, rs),
{
    let vs = records_view(rs);
    assert forall|i: int| 0 <= i < rs.len() implies {
        &&& (#[trigger] rs[i]).spec_id().spec_lineage() == lineage
        &&& 1 <= rs[i].spec_id().spec_sequence() < next
        &&& !seen_before(vs, i, vs[i].1)
    } by {
        lemma_first_record_error_none(lineage, next, vs, 0, i, limits);
        lemma_greatest_bound(vs, vs.len() as int, i);
        assert(vs[i] == anchor_view(rs[i]));
    }
    assert forall|i: int, j: int| 0 <= i < rs.len() && 0 <= j < rs.len() && i != j
        implies (#[trigger] rs[i]).spec_id().spec_sequence() != (#[trigger] rs[j]).spec_id().spec_sequence() by {
        assert(vs[i] == anchor_view(rs[i]));
        assert(vs[j] == anchor_view(rs[j]));
        if j < i {
            assert(!seen_before(vs, i, vs[i].1));
        } else {
            assert(!seen_before(vs, j, vs[j].1));
        }
    }
}

/// Every admissible snapshot survives the artifact round trip: its encoding is the one valid
/// encoding that decodes back to the same lineage, sequence frontier and records.
pub proof fn law_snapshot_round_trip(
    lineage: DocumentLineageId,
    next: u64,
    vs: Seq<AnchorView>,
    limits: AnchorSnapshotLimits,
)
    requires
        validate_spec(lineage, next, vs, limits) is Ok,
        next >= 1,
    ensures
        valid_encoding(snapshot_encoding(lineage, next, vs), (lineage, next, vs), limits),
        header_error(snapshot_encoding(lineage, next, vs), limits) is None,
{
    let b = snapshot_encoding(lineage, next, vs);
    lemma_valid_header(b, (lineage, next, vs), limits);
}

/// The sequences of the first `i` records.
pub open spec fn sequences_of(vs: Seq<AnchorView>, i: int) -> Seq<u64> {
    vs.subrange(0, i).map_values(|v: AnchorView| v.1)
}

/// Reading record `i` of a valid encoding from `p`, the first bytes of the encoding: the
/// record itself when `p` holds all of it, `Truncated` when `p` ends inside it.
proof fn lemma_record_step_of_encoding(
    b: Seq<u8>,
    t: (DocumentLineageId, u64, Seq<AnchorView>),
    limits: AnchorSnapshotLimits,
    p: Seq<u8>,
    i: int,
)
    requires
        valid_encoding(b, t, limits),
        b.len() <= usize::MAX,
        p.len() <= b.len(),
        p == b.subrange(0, p.len() as int),
        0 <= i < t.2.len(),
        40 + records_bytes(t.2, i).len() as int <= p.len(),
    ensures
        ({
            let off = 40 + records_bytes(t.2, i).len() as int;
            let next_off = 40 + records_bytes(t.2, i + 1).len() as int;
            &&& next_off == off + record_bytes(t.2[i]).len()
            &&& next_off <= p.len() ==> record_step(p, off, t.0, sequences_of(t.2, i), prefix_text_bytes(t.2, i), limits)
                == Ok::<(AnchorView, int), AnchorSnapshotCodecError>((t.2[i], next_off))
            &&& next_off > p.len() ==> record_step(p, off, t.0, sequences_of(t.2, i), prefix_text_bytes(t.2, i), limits)
                == Err::<(AnchorView, int), AnchorSnapshotCodecError>(AnchorSnapshotCodecError::Truncated)
        }),
{
    let v = t.2[i];
    let off: int = 40 + records_bytes(t.2, i).len() as int;
    lemma_valid_record(b, t, i, limits);
    lemma_record_at(b, off, v);
    let len = text_len(v);
    let seen = sequences_of(t.2, i);
    assert(!seen.contains(v.1)) by {
        if seen.contains(v.1) {
            let j = choose|j: int| 0 <= j < seen.len() && seen[j] == v.1;
            assert(t.2.subrange(0, i)[j] == t.2[j]);
            assert(seen_before(t.2, i, v.1));
        }
    }
    if off + 8 <= p.len() {
        assert forall|j: int| off <= j < off + 8 implies p[j] == b[j] by {
            assert(b.subrange(0, p.len() as int)[j] == b[j]);
        }
        assert(from_le64(p, off) == from_le64(b, off));
    }
    if off + 12 <= p.len() {
        assert forall|j: int| off + 8 <= j < off + 12 implies p[j] == b[j] by {
            assert(b.subrange(0, p.len() as int)[j] == b[j]);
        }
        assert(from_le32(p, off + 8) == from_le32(b, off + 8));
    }
    if off + 12 + len <= p.len() {
        assert(p.subrange(off + 12, off + 12 + len) =~= b.subrange(off + 12, off + 12 + len));
        encode_utf8_decode_utf8(v.2);
        lemma_utf8_valid(v.2);
        assert(decode_utf8(p.subrange(off + 12, off + 12 + len)) == v.2);
        assert((t.0, from_le64(p, off), decode_utf8(p.subrange(off + 12, off + 12 + len))) == v);
    }
}

/// Reading the records of a valid encoding from `p`, from record `i` on: the remaining records
/// and the end of the encoding when `p` is the whole encoding; `Truncated` when `p` is a
/// strict prefix that holds record `i`'s start.
#[verifier::rlimit(60)]
proof fn lemma_records_read_of_encoding(
    b: Seq<u8>,
    t: (DocumentLineageId, u64, Seq<AnchorView>),
    limits: AnchorSnapshotLimits,
    p: Seq<u8>,
    i: int,
)
    requires
        valid_encoding(b, t, limits),
        b.len() <= usize::MAX,
        p.len() <= b.len(),
        p == b.subrange(0, p.len() as int),
        0 <= i <= t.2.len(),
        40 + records_bytes(t.2, i).len() as int <= p.len(),
    ensures
        p.len() == b.len() ==> records_read(p, 40 + records_bytes(t.2, i).len() as int, t.0, sequences_of(t.2, i),
            prefix_text_bytes(t.2, i), (t.2.len() - i) as nat, limits)
            == Ok::<(Seq<AnchorView>, int), AnchorSnapshotCodecError>((t.2.subrange(i, t.2.len() as int), b.len() as int)),
        p.len() < b.len() ==> records_read(p, 40 + records_bytes(t.2, i).len() as int, t.0, sequences_of(t.2, i),
            prefix_text_bytes(t.2, i), (t.2.len() - i) as nat, limits)
            == Err::<(Seq<AnchorView>, int), AnchorSnapshotCodecError>(AnchorSnapshotCodecError::Truncated),
    decreases t.2.len() - i,
{
    let n = t.2.len() as int;
    lemma_valid_header(b, t, limits);
    if i == n {
        assert(t.2.subrange(n, n) =~= Seq::<AnchorView>::empty());
    } else {
        lemma_record_step_of_encoding(b, t, limits, p, i);
        let v = t.2[i];
        let off: int = 40 + records_bytes(t.2, i).len() as int;
        let next_off: int = 40 + records_bytes(t.2, i + 1).len() as int;
        lemma_records_bytes_prefix(t.2, i + 1, n);
        if next_off <= p.len() {
            assert(sequences_of(t.2, i + 1) =~= sequences_of(t.2, i).push(v.1));
            lemma_records_read_of_encoding(b, t, limits, p, i + 1);
            let rest = records_read(p, next_off, t.0, sequences_of(t.2, i + 1), prefix_text_bytes(t.2, i + 1),
                (n - i - 1) as nat, limits);
            assert(records_read(p, off, t.0, sequences_of(t.2, i), prefix_text_bytes(t.2, i), (n - i) as nat, limits)
                == prefix_records(seq![v], rest));
            if p.len() == b.len() {
                assert(seq![v] + t.2.subrange(i + 1, n) =~= t.2.subrange(i, n));
            }
        }
    }
}

/// Every strict prefix of a valid encoding (one that fits in memory) decodes to `Truncated`.
pub proof fn law_every_cut_of_an_encoding_is_truncated(
    lineage: DocumentLineageId,
    next: u64,
    vs: Seq<AnchorView>,
    limits: AnchorSnapshotLimits,
    k: int,
)
    requires
        validate_spec(lineage, next, vs, limits) is Ok,
        next >= 1,
        snapshot_encoding(lineage, next, vs).len() <= usize::MAX,
        0 <= k < snapshot_encoding(lineage, next, vs).len(),
    ensures
        decode_spec(snapshot_encoding(lineage, next, vs).subrange(0, k), limits)
            == Err::<(DocumentLineageId, u64, Seq<AnchorView>), AnchorSnapshotCodecError>(AnchorSnapshotCodecError::Truncated),
{
    let b = snapshot_encoding(lineage, next, vs);
    let t = (lineage, next, vs);
    let p = b.subrange(0, k);
    lemma_valid_header(b, t, limits);
    assert forall|j: int| 0 <= j < k implies p[j] == b[j] by {}
    if k >= 8 {
        assert(p.subrange(0, 8) =~= b.subrange(0, 8));
    }
    if k >= 10 {
        assert(from_le16(p, 8) == from_le16(b, 8));
    }
    if k >= 12 {
        assert(from_le16(p, 10) == from_le16(b, 10));
    }
    if k >= 36 {
        assert(from_le64(p, 28) == from_le64(b, 28));
    }
    if k >= 40 {
        assert(from_le32(p, 36) == from_le32(b, 36));
        assert(p.subrange(12, 28) =~= b.subrange(12, 28));
        let cl = choose|l: DocumentLineageId| l.0@ == p.subrange(12, 28);
        assert(lineage.0@ == p.subrange(12, 28));
        assert(cl.0@ =~= lineage.0@);
        assert(cl.0 == lineage.0);
        assert(records_bytes(vs, 0) =~= Seq::<u8>::empty());
        assert(sequences_of(vs, 0) =~= Seq::<u64>::empty());
        assert(p =~= b.subrange(0, p.len() as int));
        lemma_records_read_of_encoding(b, t, limits, p, 0);
    }
}

/// Every admissible snapshot (whose encoding fits in memory) decodes from its encoding back to
/// the same lineage, sequence frontier and records.
pub proof fn law_decode_of_encoding(
    lineage: DocumentLineageId,
    next: u64,
    vs: Seq<AnchorView>,
    limits: AnchorSnapshotLimits,
)
    requires
        validate_spec(lineage, next, vs, limits) is Ok,
        next >= 1,
        snapshot_encoding(lineage, next, vs).len() <= usize::MAX,
    ensures
        decode_spec(snapshot_encoding(lineage, next, vs), limits)
            == Ok::<(DocumentLineageId, u64, Seq<AnchorView>), AnchorSnapshotCodecError>((lineage, next, vs)),
{
    let b = snapshot_encoding(lineage, next, vs);
    let t = (lineage, next, vs);
    lemma_valid_header(b, t, limits);
    let cl = choose|l: DocumentLineageId| l.0@ == b.subrange(12, 28);
    assert(cl.0@ =~= lineage.0@);
    assert(cl.0 == lineage.0);
    assert(records_bytes(vs, 0) =~= Seq::<u8>::empty());
    assert(sequences_of(vs, 0) =~= Seq::<u64>::empty());
    assert(b =~= b.subrange(0, b.len() as int));
    lemma_records_read_of_encoding(b, t, limits, b, 0);
    assert(vs.subrange(0, vs.len() as int) =~= vs);
}

/// A reload (snapshot, encode, decode, rebind to the same texts) reissues nothing: the table
/// after it has the frontier and the live sequences of the table before it, so it extends a
/// table's history as a mutation does (`law_retired_sequence_stays_retired`).
pub proof fn law_reload_never_reissues(
    t: ParagraphAnchorTable,
    s: ParagraphAnchorSnapshot,
    d: ParagraphAnchorSnapshot,
    t2: ParagraphAnchorTable,
)
    requires
        s.spec_next() == t.spec_next(),
        s.spec_views() == records_view(t.spec_records()),
        d.spec_next() == s.spec_next(),
        d.spec_views() == s.spec_views(),
        t2.spec_next() == d.spec_next(),
        same_records(t2.spec_records(), d.spec_records()),
    ensures
        never_reissues(t, t2),
        never_reissues(t2, t),
{
    assert forall|q: u64| #[trigger] sequence_live(t2.spec_records(), q) implies sequence_live(t.spec_records(), q) by {
        let j = choose|j: int| 0 <= j < t2.spec_records().len() && (#[trigger] t2.spec_records()[j]).spec_id().spec_sequence() == q;
        assert(t2.spec_records()[j].spec_id() == d.spec_records()[j].spec_id());
        assert(records_view(d.spec_records()).len() == records_view(t.spec_records()).len());
        assert(records_view(d.spec_records())[j] == anchor_view(d.spec_records()[j]));
        assert(records_view(t.spec_records())[j] == anchor_view(t.spec_records()[j]));
        assert(records_view(d.spec_records())[j] == records_view(t.spec_records())[j]);
        assert(t.spec_records()[j].spec_id().spec_sequence() == q);
    }
    assert forall|q: u64| #[trigger] sequence_live(t.spec_records(), q) implies sequence_live(t2.spec_records(), q) by {
        let j = choose|j: int| 0 <= j < t.spec_records().len() && (#[trigger] t.spec_records()[j]).spec_id().spec_sequence() == q;
        assert(records_view(d.spec_records()).len() == records_view(t.spec_records()).len());
        assert(records_view(d.spec_records())[j] == anchor_view(d.spec_records()[j]));
        assert(records_view(t.spec_records())[j] == anchor_view(t.spec_records()[j]));
        assert(records_view(d.spec_records())[j] == records_view(t.spec_records())[j]);
        assert(t2.spec_records()[j].spec_id() == d.spec_records()[j].spec_id());
        assert(t2.spec_records()[j].spec_id().spec_sequence() == q);
    }
}

impl ParagraphAnchorSnapshot {
    /// The snapshot's records are well formed for its lineage and sequence frontier.
    pub open spec fn wf(&self) -> bool {
        records_wf(self.spec_lineage(), self.spec_next(), self.spec_records())
    }

    /// Rebinds the persisted anchors to a current projection, only when the lineage, the
    /// paragraph count and every paragraph's semantic text agree exactly.
    pub fn rebind_exact_projection(&self, expected_lineage: DocumentLineageId, semantic_paragraphs: &[String]) -> (r: Result<ParagraphAnchorTable, AnchorRebindError>)
        ensures
            self.spec_lineage() != expected_lineage ==> r == Err::<ParagraphAnchorTable, AnchorRebindError>(
                AnchorRebindError::LineageMismatch { expected: expected_lineage, actual: self.spec_lineage() }),
            self.spec_lineage() == expected_lineage && self.spec_records().len() != semantic_paragraphs@.len()
                ==> r == Err::<ParagraphAnchorTable, AnchorRebindError>(AnchorRebindError::ParagraphCountChanged {
                    expected: self.spec_records().len() as usize,
                    actual: semantic_paragraphs@.len() as usize,
                }),
            self.spec_lineage() == expected_lineage && self.spec_records().len() == semantic_paragraphs@.len() ==> match r {
                Err(AnchorRebindError::SemanticMismatch { index }) => {
                    &&& index < semantic_paragraphs@.len()
                    &&& self.spec_records()[index as int].spec_text() != semantic_paragraphs@[index as int]@
                    &&& forall|j: int| 0 <= j < index ==> (#[trigger] self.spec_records()[j]).spec_text() == semantic_paragraphs@[j]@
                },
                Ok(t) => {
                    &&& forall|j: int| 0 <= j < semantic_paragraphs@.len() ==> (#[trigger] self.spec_records()[j]).spec_text() == semantic_paragraphs@[j]@
                    &&& t.spec_lineage() == self.spec_lineage()
                    &&& t.spec_next() == self.spec_next()
                    &&& same_records(t.spec_records(), self.spec_records())
                },
                Err(_) => false,
            },
            self.wf() ==> (r matches Ok(t) ==> t.wf()),
    {
        if !lineage_eq(&self.lineage, &expected_lineage) {
            return Err(AnchorRebindError::LineageMismatch { expected: expected_lineage, actual: self.lineage });
        }
        let n = self.paragraphs.len();
        if n != semantic_paragraphs.len() {
            return Err(AnchorRebindError::ParagraphCountChanged { expected: n, actual: semantic_paragraphs.len() });
        }
        let mut index: usize = 0;
        while index < n
            invariant
                n == self.paragraphs@.len(),
                n == semantic_paragraphs@.len(),
                self.lineage == expected_lineage,
                0 <= index <= n,
                forall|j: int| 0 <= j < index ==> (#[trigger] self.paragraphs@[j]).spec_text() == semantic_paragraphs@[j]@,
            decreases n - index,
        {
            proof {
                self.paragraphs@[index as int].lemma_fields();
            }
            if self.paragraphs[index].semantic_text != semantic_paragraphs[index] {
                return Err(AnchorRebindError::SemanticMismatch { index });
            }
            index = index + 1;
        }
        let t = ParagraphAnchorTable {
            lineage: self.lineage,
            next_sequence: self.next_sequence,
            paragraphs: copy_records(&self.paragraphs),
        };
        proof {
            t.lemma_fields();
            if self.wf() {
                assert forall|i: int, j: int| 0 <= i < t.paragraphs@.len() && 0 <= j < t.paragraphs@.len() && i != j
                    implies (#[trigger] t.paragraphs@[i]).spec_id().spec_sequence() != (#[trigger] t.paragraphs@[j]).spec_id().spec_sequence() by {
                    assert(t.paragraphs@[i].spec_id() == self.paragraphs@[i].spec_id());
                    assert(t.paragraphs@[j].spec_id() == self.paragraphs@[j].spec_id());
                }
                assert forall|i: int| 0 <= i < t.paragraphs@.len() implies {
                    &&& (#[trigger] t.paragraphs@[i]).spec_id().spec_lineage() == t.lineage
                    &&& 1 <= t.paragraphs@[i].spec_id().spec_sequence() < t.next_sequence.0
                } by {
                    assert(t.paragraphs@[i].spec_id() == self.paragraphs@[i].spec_id());
                }
            }
        }
        Ok(t)
    }
}

/// The diagnostic text of a snapshot codec error.
pub open spec fn codec_error_text(e: AnchorSnapshotCodecError) -> Seq<char> {
    match e {
        AnchorSnapshotCodecError::InvalidMagic => "invalid anchor snapshot magic"@,
        AnchorSnapshotCodecError::UnsupportedVersion(version) => "unsupported anchor snapshot version "@ + decimal(version as nat),
        AnchorSnapshotCodecError::UnsupportedFlags(flags) => "unsupported anchor snapshot flags 0x"@ + hex2((flags / 256) as u8) + hex2((flags % 256) as u8),
        AnchorSnapshotCodecError::Truncated => "truncated anchor snapshot"@,
        AnchorSnapshotCodecError::TrailingBytes => "anchor snapshot contains trailing bytes"@,
        AnchorSnapshotCodecError::ParagraphLimitExceeded { actual, limit } => "anchor snapshot paragraph count "@ + decimal(actual as nat) + " exceeds limit "@ + decimal(limit as nat),
        AnchorSnapshotCodecError::ParagraphBytesLimitExceeded { actual, limit } => "anchor paragraph contains "@ + decimal(actual as nat) + " bytes, exceeding limit "@ + decimal(limit as nat),
        AnchorSnapshotCodecError::TotalTextBytesLimitExceeded { actual, limit } => "anchor snapshot contains "@ + decimal(actual as nat) + " semantic text bytes, exceeding limit "@ + decimal(limit as nat),
        AnchorSnapshotCodecError::InvalidUtf8 => "anchor snapshot contains invalid UTF-8"@,
        AnchorSnapshotCodecError::ZeroSequence => "anchor sequence zero is reserved"@,
        AnchorSnapshotCodecError::DuplicateSequence(sequence) => "duplicate live paragraph anchor sequence "@ + decimal(sequence.0 as nat),
        AnchorSnapshotCodecError::NextSequenceNotAfterLiveAnchors { next, greatest_live } => "next anchor sequence "@ + decimal(next.0 as nat) + " does not follow greatest live sequence "@ + decimal(greatest_live.0 as nat),
        AnchorSnapshotCodecError::LengthOverflow => "anchor snapshot length arithmetic overflow"@,
    }
}

impl AnchorSnapshotCodecError {
    /// The diagnostic text of the error.
    pub fn message(&self) -> (m: String)
        ensures
            m@ == codec_error_text(*self),
    {
        let mut m = String::new();
        match *self {
            AnchorSnapshotCodecError::InvalidMagic => {
                push_text(&mut m, "invalid anchor snapshot magic");
            },
            AnchorSnapshotCodecError::UnsupportedVersion(version) => {
                push_text(&mut m, "unsupported anchor snapshot version ");
                push_decimal(&mut m, version as u64);
            },
            AnchorSnapshotCodecError::UnsupportedFlags(flags) => {
                push_text(&mut m, "unsupported anchor snapshot flags 0x");
                push_hex2(&mut m, (flags / 256) as u8);
                push_hex2(&mut m, (flags % 256) as u8);
            },
            AnchorSnapshotCodecError::Truncated => {
                push_text(&mut m, "truncated anchor snapshot");
            },
            AnchorSnapshotCodecError::TrailingBytes => {
                push_text(&mut m, "anchor snapshot contains trailing bytes");
            },
            AnchorSnapshotCodecError::ParagraphLimitExceeded { actual, limit } => {
                push_text(&mut m, "anchor snapshot paragraph count ");
                push_decimal(&mut m, actual as u64);
                push_text(&mut m, " exceeds limit ");
                push_decimal(&mut m, limit as u64);
            },
            AnchorSnapshotCodecError::ParagraphBytesLimitExceeded { actual, limit } => {
                push_text(&mut m, "anchor paragraph contains ");
                push_decimal(&mut m, actual as u64);
                push_text(&mut m, " bytes, exceeding limit ");
                push_decimal(&mut m, limit as u64);
            },
            AnchorSnapshotCodecError::TotalTextBytesLimitExceeded { actual, limit } => {
                push_text(&mut m, "anchor snapshot contains ");
                push_decimal(&mut m, actual as u64);
                push_text(&mut m, " semantic text bytes, exceeding limit ");
                push_decimal(&mut m, limit as u64);
            },
            AnchorSnapshotCodecError::InvalidUtf8 => {
                push_text(&mut m, "anchor snapshot contains invalid UTF-8");
            },
            AnchorSnapshotCodecError::ZeroSequence => {
                push_text(&mut m, "anchor sequence zero is reserved");
            },
            AnchorSnapshotCodecError::DuplicateSequence(sequence) => {
                push_text(&mut m, "duplicate live paragraph anchor sequence ");
                push_decimal(&mut m, sequence.0 as u64);
            },
            AnchorSnapshotCodecError::NextSequenceNotAfterLiveAnchors { next, greatest_live } => {
                push_text(&mut m, "next anchor sequence ");
                push_decimal(&mut m, next.0 as u64);
                push_text(&mut m, " does not follow greatest live sequence ");
                push_decimal(&mut m, greatest_live.0 as u64);
            },
            AnchorSnapshotCodecError::LengthOverflow => {
                push_text(&mut m, "anchor snapshot length arithmetic overflow");
            },
        }
        proof {
            assert(m@ =~= codec_error_text(*self));
        }
        m
    }
}

/// The diagnostic text of a refused rebind.
pub open spec fn rebind_error_text(e: AnchorRebindError) -> Seq<char> {
    match e {
        AnchorRebindError::LineageMismatch { expected, actual } => "anchor snapshot lineage "@ + hex_bytes(actual.0@) + " does not match expected lineage "@ + hex_bytes(expected.0@),
        AnchorRebindError::ParagraphCountChanged { expected, actual } => "anchor snapshot expected "@ + decimal(expected as nat) + " paragraphs, current projection has "@ + decimal(actual as nat),
        AnchorRebindError::SemanticMismatch { index } => "anchor snapshot semantic evidence differs at paragraph index "@ + decimal(index as nat),
    }
}

impl AnchorRebindError {
    /// The diagnostic text of the error.
    pub fn message(&self) -> (m: String)
        ensures
            m@ == rebind_error_text(*self),
    {
        let mut m = String::new();
        match *self {
            AnchorRebindError::LineageMismatch { expected, actual } => {
                push_text(&mut m, "anchor snapshot lineage ");
                push_hex_bytes(&mut m, &actual.0);
                push_text(&mut m, " does not match expected lineage ");
                push_hex_bytes(&mut m, &expected.0);
            },
            AnchorRebindError::ParagraphCountChanged { expected, actual } => {
                push_text(&mut m, "anchor snapshot expected ");
                push_decimal(&mut m, expected as u64);
                push_text(&mut m, " paragraphs, current projection has ");
                push_decimal(&mut m, actual as u64);
            },
            AnchorRebindError::SemanticMismatch { index } => {
                push_text(&mut m, "anchor snapshot semantic evidence differs at paragraph index ");
                push_decimal(&mut m, index as u64);
            },
        }
        proof {
            assert(m@ =~= rebind_error_text(*self));
        }
        m
    }
}

} // verus!
