//! Deterministic in-memory engine used to exercise session semantics.

use vstd::prelude::*;
use vstd::utf8::*;
use crate::engine::{DocumentEngine, EngineError, SemanticObservation};
use crate::protocol::{
    edit_admission_error, edit_range_spec, edits_overlap, first_edit_error, ordered_before, prefix_replacement_bytes, validate_spec, DocumentCapability, DocumentRevision, DocumentTransaction,
    EngineCapabilities, ProtocolError, ProtocolVersion, TextEdit, TransactionApplied,
    TransactionLimits,
};
use crate::text::{lemma_boundary_shared_prefix, lemma_utf8_valid, splice_str, str_len, utf8};

verus! {

/// The admission policy of the mock engine.
pub open spec fn mock_limits_spec() -> TransactionLimits {
    TransactionLimits { max_edits: 4096, max_replacement_bytes: 16777216, max_total_replacement_bytes: 67108864 }
}

fn mock_transaction_limits() -> (l: TransactionLimits)
    ensures
        l == mock_limits_spec(),
{
    TransactionLimits::new(4096, 16 * 1024 * 1024, 64 * 1024 * 1024)
}

/// Inserts `e` into start-sorted `sorted` before every edit that starts at or after it.
pub open spec fn insert_before_equal(sorted: Seq<TextEdit>, e: TextEdit) -> Seq<TextEdit>
    decreases sorted.len(),
{
    if sorted.len() == 0 {
        seq![e]
    } else if sorted[0].start_utf8.0 >= e.start_utf8.0 {
        seq![e] + sorted
    } else {
        seq![sorted[0]] + insert_before_equal(sorted.drop_first(), e)
    }
}

/// Edits ordered by start offset; edits with equal starts keep their transaction order.
pub open spec fn sort_by_start(edits: Seq<TextEdit>) -> Seq<TextEdit>
    decreases edits.len(),
{
    if edits.len() == 0 {
        seq![]
    } else {
        insert_before_equal(sort_by_start(edits.drop_first()), edits[0])
    }
}

/// Replaces the byte range an edit names by its replacement bytes.
pub open spec fn splice(bytes: Seq<u8>, e: TextEdit) -> Seq<u8> {
    bytes.subrange(0, e.start_utf8.0 as int) + utf8(e.replacement@) + bytes.subrange(e.end_utf8.0 as int, bytes.len() as int)
}

/// Applies sorted edits from the last to the first, so earlier offsets stay valid.
pub open spec fn apply_from_back(bytes: Seq<u8>, sorted: Seq<TextEdit>) -> Seq<u8>
    decreases sorted.len(),
{
    if sorted.len() == 0 {
        bytes
    } else {
        apply_from_back(splice(bytes, sorted.last()), sorted.drop_last())
    }
}

/// Every edit names a valid range of `bytes` and each ends before the next begins.
pub open spec fn sorted_applicable(bytes: Seq<u8>, sorted: Seq<TextEdit>) -> bool {
    &&& forall|t: int| 0 <= t < sorted.len() ==> (#[trigger] edit_range_spec(sorted[t].start_utf8.0, sorted[t].end_utf8.0, bytes)) is Ok
    &&& forall|t: int| 0 <= t < sorted.len() - 1 ==> (#[trigger] sorted[t]).end_utf8.0 <= sorted[t + 1].start_utf8.0
}

#[derive(Debug)]
pub struct MockDocumentEngine {
    document: Option<String>,
    revision: DocumentRevision,
}

impl MockDocumentEngine {
    /// The open document text, if any.
    pub closed spec fn spec_document(&self) -> Option<Seq<char>> {
        match self.document {
            Some(d) => Some(d@),
            None => None,
        }
    }

    pub closed spec fn spec_revision(&self) -> DocumentRevision {
        self.revision
    }
}

impl Default for MockDocumentEngine {
    fn default() -> (r: Self)
        ensures
            r.spec_document() is None,
            r.spec_revision().0 == 0,
    {
        MockDocumentEngine { document: None, revision: DocumentRevision(0) }
    }
}

/// `insert_before_equal` puts `e` after the elements that start before it and before the first
/// one that does not.
proof fn lemma_insert_split(s: Seq<TextEdit>, e: TextEdit) -> (k: int)
    ensures
        0 <= k <= s.len(),
        insert_before_equal(s, e) == s.subrange(0, k).push(e) + s.subrange(k, s.len() as int),
        forall|j: int| 0 <= j < k ==> (#[trigger] s[j]).start_utf8.0 < e.start_utf8.0,
        k < s.len() ==> s[k].start_utf8.0 >= e.start_utf8.0,
    decreases s.len(),
{
    if s.len() == 0 {
        assert(insert_before_equal(s, e) =~= s.subrange(0, 0).push(e) + s.subrange(0, 0));
        0
    } else if s[0].start_utf8.0 >= e.start_utf8.0 {
        assert(insert_before_equal(s, e) =~= s.subrange(0, 0).push(e) + s.subrange(0, s.len() as int));
        0
    } else {
        let rest = s.drop_first();
        let k = lemma_insert_split(rest, e);
        assert(insert_before_equal(s, e) =~= s.subrange(0, k + 1).push(e) + s.subrange(k + 1, s.len() as int)) by {
            assert(rest.subrange(0, k) =~= s.subrange(1, k + 1));
            assert(rest.subrange(k, rest.len() as int) =~= s.subrange(k + 1, s.len() as int));
        }
        assert forall|j: int| 0 <= j < k + 1 implies (#[trigger] s[j]).start_utf8.0 < e.start_utf8.0 by {
            if j > 0 {
                assert(s[j] == rest[j - 1]);
            }
        }
        k + 1
    }
}

/// Sorting keeps the edits: every sorted edit is one of the transaction's edits.
proof fn lemma_sort_members(edits: Seq<TextEdit>)
    ensures
        sort_by_start(edits).len() == edits.len(),
        forall|t: int| 0 <= t < edits.len() ==> edits.contains(#[trigger] sort_by_start(edits)[t]),
    decreases edits.len(),
{
    if edits.len() > 0 {
        let rest = edits.drop_first();
        lemma_sort_members(rest);
        let sr = sort_by_start(rest);
        let k = lemma_insert_split(sr, edits[0]);
        let r = sort_by_start(edits);
        assert(r == sr.subrange(0, k).push(edits[0]) + sr.subrange(k, sr.len() as int));
        assert forall|t: int| 0 <= t < edits.len() implies edits.contains(#[trigger] r[t]) by {
            if t < k {
                assert(r[t] == sr[t]);
                let j = choose|j: int| 0 <= j < rest.len() && rest[j] == sr[t];
                assert(edits[j + 1] == rest[j]);
            } else if t == k {
                assert(edits[0] == r[t]);
            } else {
                assert(r[t] == sr[t - 1]);
                let j = choose|j: int| 0 <= j < rest.len() && rest[j] == sr[t - 1];
                assert(edits[j + 1] == rest[j]);
            }
        }
    }
}

/// Every edit names a valid range of `bytes`, and no two overlap in start order.
pub open spec fn edits_admissible(edits: Seq<TextEdit>, bytes: Seq<u8>) -> bool {
    &&& forall|i: int| 0 <= i < edits.len() ==> (#[trigger] edit_range_spec(edits[i].start_utf8.0, edits[i].end_utf8.0, bytes)) is Ok
    &&& !edits_overlap(edits)
}

/// Admissible edits, once stably sorted by start, apply one after another.
proof fn lemma_admissible_sorted_applicable(edits: Seq<TextEdit>, bytes: Seq<u8>)
    requires
        edits_admissible(edits, bytes),
    ensures
        sorted_applicable(bytes, sort_by_start(edits)),
    decreases edits.len(),
{
    if edits.len() > 0 {
        let e0 = edits[0];
        let rest = edits.drop_first();
        assert forall|i: int| 0 <= i < rest.len() implies (#[trigger] edit_range_spec(rest[i].start_utf8.0, rest[i].end_utf8.0, bytes)) is Ok by {
            assert(rest[i] == edits[i + 1]);
        }
        if edits_overlap(rest) {
            let (a, b) = choose|a: int, b: int| 0 <= a < rest.len() && 0 <= b < rest.len() && a != b && ordered_before(rest, a, b)
                && rest[a].end_utf8.0 > rest[b].start_utf8.0;
            assert(ordered_before(edits, a + 1, b + 1));
            assert(edits_overlap(edits));
        }
        lemma_admissible_sorted_applicable(rest, bytes);
        lemma_sort_members(rest);
        let sr = sort_by_start(rest);
        let k = lemma_insert_split(sr, e0);
        let r = sort_by_start(edits);
        assert(r == sr.subrange(0, k).push(e0) + sr.subrange(k, sr.len() as int));
        assert(r.len() == sr.len() + 1);
        assert forall|t: int| 0 <= t < r.len() implies (#[trigger] edit_range_spec(r[t].start_utf8.0, r[t].end_utf8.0, bytes)) is Ok by {
            if t < k {
                assert(r[t] == sr[t]);
            } else if t == k {
                assert(r[t] == e0);
            } else {
                assert(r[t] == sr[t - 1]);
            }
        }
        assert forall|t: int| 0 <= t < r.len() - 1 implies (#[trigger] r[t]).end_utf8.0 <= r[t + 1].start_utf8.0 by {
            if t + 1 < k {
                assert(r[t] == sr[t] && r[t + 1] == sr[t + 1]);
            } else if t + 1 == k {
                assert(r[t] == sr[t] && r[t + 1] == e0);
                let j = choose|j: int| 0 <= j < rest.len() && rest[j] == sr[t];
                assert(edits[j + 1] == sr[t]);
                assert(ordered_before(edits, j + 1, 0));
                if sr[t].end_utf8.0 > e0.start_utf8.0 {
                    assert(edits_overlap(edits));
                }
            } else if t == k {
                assert(r[t] == e0 && r[t + 1] == sr[k]);
                let j = choose|j: int| 0 <= j < rest.len() && rest[j] == sr[k];
                assert(edits[j + 1] == sr[k]);
                assert(ordered_before(edits, 0, j + 1));
                if e0.end_utf8.0 > sr[k].start_utf8.0 {
                    assert(edits_overlap(edits));
                }
            } else {
                assert(r[t] == sr[t - 1] && r[t + 1] == sr[t]);
            }
        }
    }
}

/// An admitted edit list names valid ranges and does not overlap.
proof fn lemma_validated_admissible(edits: Seq<TextEdit>, text: Seq<u8>, limits: TransactionLimits, k: int)
    requires
        0 <= k,
        first_edit_error(edits, text, limits, k) is None,
    ensures
        forall|i: int| k <= i < edits.len() ==> (#[trigger] edit_range_spec(edits[i].start_utf8.0, edits[i].end_utf8.0, text)) is Ok,
    decreases edits.len() - k,
{
    if k < edits.len() {
        assert(edit_admission_error(edits[k], prefix_replacement_bytes(edits, k), text, limits) is None);
        lemma_validated_admissible(edits, text, limits, k + 1);
    }
}

/// Law: a transaction the protocol admits against a text always applies. Its edits name valid
/// ranges and do not overlap, so, stably sorted by start, each ends before the next begins.
pub proof fn law_admitted_transaction_applies(edits: Seq<TextEdit>, text: Seq<u8>, limits: TransactionLimits)
    requires
        validate_spec(edits, text, limits) is Ok,
    ensures
        sorted_applicable(text, sort_by_start(edits)),
{
    lemma_validated_admissible(edits, text, limits, 0);
    lemma_admissible_sorted_applicable(edits, text);
}

/// Inserts `e` into a start-sorted vector at its stable position.
fn insert_sorted(sorted: &mut Vec<TextEdit>, e: TextEdit)
    ensures
        final(sorted)@ == insert_before_equal(old(sorted)@, e),
{
    let ghost s0 = sorted@;
    let mut k: usize = 0;
    assert(s0.subrange(0, s0.len() as int) =~= s0);
    assert(s0.subrange(0, 0) + insert_before_equal(s0, e) =~= insert_before_equal(s0, e));
    while k < sorted.len() && sorted[k].start_utf8.0 < e.start_utf8.0
        invariant
            sorted@ == s0,
            0 <= k <= s0.len(),
            forall|j: int| 0 <= j < k ==> (#[trigger] s0[j]).start_utf8.0 < e.start_utf8.0,
            insert_before_equal(s0, e) == s0.subrange(0, k as int) + insert_before_equal(s0.subrange(k as int, s0.len() as int), e),
        decreases s0.len() - k,
    {
        proof {
            let rest = s0.subrange(k as int, s0.len() as int);
            assert(rest.drop_first() =~= s0.subrange(k + 1, s0.len() as int));
            assert(s0.subrange(0, k as int) + seq![rest[0]] =~= s0.subrange(0, k + 1));
            assert(s0.subrange(0, k as int) + (seq![rest[0]] + insert_before_equal(rest.drop_first(), e))
                =~= s0.subrange(0, k + 1) + insert_before_equal(rest.drop_first(), e));
        }
        k = k + 1;
    }
    proof {
        let rest = s0.subrange(k as int, s0.len() as int);
        assert(insert_before_equal(rest, e) =~= seq![e] + rest);
        assert(s0.subrange(0, k as int) + (seq![e] + rest) =~= s0.insert(k as int, e));
    }
    sorted.insert(k, e);
}

/// Stable sort of edits by start offset.
fn sort_edits(edits: Vec<TextEdit>) -> (sorted: Vec<TextEdit>)
    ensures
        sorted@ == sort_by_start(edits@),
{
    let ghost all = edits@;
    let mut rest = edits;
    let mut sorted: Vec<TextEdit> = Vec::new();
    assert(all.subrange(0, all.len() as int) =~= all);
    assert(all.subrange(all.len() as int, all.len() as int) =~= Seq::<TextEdit>::empty());
    while rest.len() > 0
        invariant
            rest@.len() <= all.len(),
            rest@ == all.subrange(0, rest@.len() as int),
            sorted@ == sort_by_start(all.subrange(rest@.len() as int, all.len() as int)),
        decreases rest.len(),
    {
        let ghost n = rest@.len();
        let e = rest.pop().unwrap();
        proof {
            let suffix = all.subrange(n - 1, all.len() as int);
            assert(suffix.drop_first() =~= all.subrange(n as int, all.len() as int));
            assert(suffix[0] == e);
            assert(rest@ =~= all.subrange(0, n - 1));
        }
        insert_sorted(&mut sorted, e);
    }
    proof {
        assert(all.subrange(0, all.len() as int) =~= all);
    }
    sorted
}

proof fn lemma_step_pre(orig: Seq<u8>, cur: Seq<u8>, k: int, s: int, e: int)
    requires
        valid_utf8(orig),
        valid_utf8(cur),
        0 <= k <= orig.len(),
        k <= cur.len(),
        cur.subrange(0, k) == orig.subrange(0, k),
        is_char_boundary(orig, k),
        is_char_boundary(cur, k),
        0 <= s <= e <= k,
        is_char_boundary(orig, s),
        is_char_boundary(orig, e),
    ensures
        is_char_boundary(cur, s),
        is_char_boundary(cur, e),
{
    lemma_boundary_shared_prefix(orig, cur, k, s);
    lemma_boundary_shared_prefix(orig, cur, k, e);
}

proof fn lemma_step_post(orig: Seq<u8>, cur: Seq<u8>, nb: Seq<u8>, r: Seq<u8>, k: int, s: int, e: int)
    requires
        valid_utf8(cur),
        valid_utf8(nb),
        valid_utf8(r),
        0 <= s <= e <= k,
        k <= orig.len(),
        k <= cur.len(),
        cur.subrange(0, k) == orig.subrange(0, k),
        is_char_boundary(cur, e),
        nb == cur.subrange(0, s) + r + cur.subrange(e, cur.len() as int),
    ensures
        s <= nb.len(),
        nb.subrange(0, s) == orig.subrange(0, s),
        is_char_boundary(nb, s),
{
    assert(nb.subrange(0, s) =~= cur.subrange(0, s));
    assert(cur.subrange(0, s) =~= cur.subrange(0, k).subrange(0, s));
    assert(orig.subrange(0, s) =~= orig.subrange(0, k).subrange(0, s));
    is_char_boundary_start_end_of_seq(nb);
    if s < nb.len() {
        if r.len() > 0 {
            assert(nb[s] == r[0]);
            is_char_boundary_start_end_of_seq(r);
            is_char_boundary_iff_not_is_continuation_byte(r, 0);
        } else {
            assert(nb[s] == cur[e]);
            is_char_boundary_iff_not_is_continuation_byte(cur, e);
        }
        is_char_boundary_iff_not_is_continuation_byte(nb, s);
    }
}

/// Applies checked, sorted edits from the back of the document to the front.
fn apply_sorted(text: String, sorted: Vec<TextEdit>) -> (r: String)
    requires
        sorted_applicable(utf8(text@), sorted@),
    ensures
        utf8(r@) == apply_from_back(utf8(text@), sorted@),
{
    let ghost orig = utf8(text@);
    let ghost all = sorted@;
    proof {
        lemma_utf8_valid(text@);
    }
    let total = str_len(text.as_str());
    let mut doc = text;
    let mut rest = sorted;
    let ghost mut k: int = orig.len() as int;
    proof {
        assert(all.subrange(0, all.len() as int) =~= all);
        if all.len() > 0 {
            assert(edit_range_spec(all[all.len() - 1].start_utf8.0, all[all.len() - 1].end_utf8.0, orig) is Ok);
        }
        assert(utf8(doc@).subrange(0, k) =~= orig);
    }
    while rest.len() > 0
        invariant
            sorted_applicable(orig, all),
            valid_utf8(orig),
            orig.len() <= usize::MAX,
            rest@.len() <= all.len(),
            rest@ == all.subrange(0, rest@.len() as int),
            apply_from_back(orig, all) == apply_from_back(utf8(doc@), rest@),
            0 <= k <= orig.len(),
            k <= utf8(doc@).len(),
            utf8(doc@).subrange(0, k) == orig.subrange(0, k),
            is_char_boundary(orig, k),
            is_char_boundary(utf8(doc@), k),
            rest@.len() > 0 ==> rest@.last().end_utf8.0 <= k,
        decreases rest.len(),
    {
        let ghost n = rest@.len();
        let e = rest.pop().unwrap();
        let ghost cur = utf8(doc@);
        proof {
            lemma_utf8_valid(doc@);
            assert(e == all[n - 1]);
            assert(edit_range_spec(all[n - 1].start_utf8.0, all[n - 1].end_utf8.0, orig) is Ok);
            lemma_step_pre(orig, cur, k, e.start_utf8.0 as int, e.end_utf8.0 as int);
        }
        let start = e.start_utf8.0 as usize;
        let end = e.end_utf8.0 as usize;
        let next_doc = splice_str(doc.as_str(), start, end, e.replacement.as_str());
        proof {
            let s = start as int;
            let nb = utf8(next_doc@);
            lemma_utf8_valid(next_doc@);
            lemma_utf8_valid(e.replacement@);
            lemma_step_post(orig, cur, nb, utf8(e.replacement@), k, s, end as int);
            assert(nb == splice(cur, e));
            assert(rest@ =~= all.subrange(0, n - 1));
            if n - 1 > 0 {
                assert(all[n - 2].end_utf8.0 <= all[n - 2 + 1].start_utf8.0);
                assert(rest@.last() == all[n - 2]);
            }
            assert(all.subrange(0, n as int).drop_last() =~= all.subrange(0, n - 1));
            assert(all.subrange(0, n as int).last() == e);
            k = s;
        }
        doc = next_doc;
    }
    proof {
        assert(rest@.len() == 0);
    }
    doc
}

impl DocumentEngine for MockDocumentEngine {
    open spec fn spec_state(&self) -> Option<(DocumentRevision, Seq<char>)> {
        match self.spec_document() {
            None => None,
            Some(d) => Some((self.spec_revision(), d)),
        }
    }

    fn capabilities(&self) -> (c: EngineCapabilities)
        ensures
            c.protocol.major == 0,
            c.protocol.minor == 1,
            c.capabilities@ == seq![DocumentCapability::Read, DocumentCapability::EditText, DocumentCapability::SemanticSnapshot],
    {
        EngineCapabilities {
            protocol: ProtocolVersion::v0(),
            capabilities: vec![DocumentCapability::Read, DocumentCapability::EditText, DocumentCapability::SemanticSnapshot],
        }
    }

    fn revision(&self) -> (r: Result<DocumentRevision, EngineError>)
        ensures
            self.spec_document() is None ==> r matches Err(EngineError::NotOpen),
            self.spec_document() is Some ==> r == Ok::<DocumentRevision, EngineError>(self.spec_revision()),
    {
        match &self.document {
            None => Err(EngineError::NotOpen),
            Some(_) => Ok(self.revision),
        }
    }

    fn open_text_fixture(&mut self, text: String) -> (r: Result<DocumentRevision, EngineError>)
        ensures
            final(self).spec_document() == Some(text@),
            final(self).spec_revision().0 == 0,
            r == Ok::<DocumentRevision, EngineError>(final(self).spec_revision()),
    {
        self.document = Some(text);
        self.revision = DocumentRevision(0);
        Ok(self.revision)
    }

    fn semantic_text(&self) -> (r: Result<SemanticObservation<String>, EngineError>)
        ensures
            self.spec_document() is None ==> r matches Err(EngineError::NotOpen),
            self.spec_document() matches Some(d) ==> (r matches Ok(o) && o.spec_revision() == self.spec_revision()
                && o.spec_value()@ == d),
    {
        match &self.document {
            None => Err(EngineError::NotOpen),
            Some(d) => Ok(SemanticObservation::new(self.revision, d.clone())),
        }
    }

    fn apply_transaction(&mut self, transaction: DocumentTransaction) -> (r: Result<TransactionApplied, EngineError>)
        ensures
            r is Err ==> *final(self) == *old(self),
            transaction.expected_revision != old(self).spec_revision() ==> (r matches Err(EngineError::Protocol(ProtocolError::RevisionConflict { expected, actual }))
                && expected == transaction.expected_revision && actual == old(self).spec_revision()),
            transaction.expected_revision == old(self).spec_revision() && old(self).spec_document() is None ==> r matches Err(EngineError::NotOpen),
            transaction.expected_revision == old(self).spec_revision() && old(self).spec_document() is Some ==> {
                let text = utf8(old(self).spec_document().unwrap());
                match validate_spec(transaction.edits@, text, mock_limits_spec()) {
                    Err(e) => (r matches Err(EngineError::Protocol(pe)) && pe == e),
                    Ok(()) => {
                        &&& r matches Ok(applied)
                        &&& applied.previous_revision == old(self).spec_revision()
                        &&& applied.new_revision == old(self).spec_revision().next_spec()
                        &&& final(self).spec_revision() == applied.new_revision
                        &&& (final(self).spec_document() matches Some(d)
                            && utf8(d) == apply_from_back(text, sort_by_start(transaction.edits@)))
                    },
                }
            },
    {
        self.apply_checked(transaction)
    }
}

impl MockDocumentEngine {
    /// Admits and applies one transaction atomically: on any error nothing changes.
    pub fn apply_checked(&mut self, transaction: DocumentTransaction) -> (r: Result<TransactionApplied, EngineError>)
        ensures
            r is Err ==> *final(self) == *old(self),
            transaction.expected_revision != old(self).spec_revision() ==> (r matches Err(EngineError::Protocol(ProtocolError::RevisionConflict { expected, actual }))
                && expected == transaction.expected_revision && actual == old(self).spec_revision()),
            transaction.expected_revision == old(self).spec_revision() && old(self).spec_document() is None ==> r matches Err(EngineError::NotOpen),
            transaction.expected_revision == old(self).spec_revision() && old(self).spec_document() is Some ==> {
                let text = utf8(old(self).spec_document().unwrap());
                match validate_spec(transaction.edits@, text, mock_limits_spec()) {
                    Err(e) => (r matches Err(EngineError::Protocol(pe)) && pe == e),
                    Ok(()) => {
                        &&& r matches Ok(applied)
                        &&& applied.previous_revision == old(self).spec_revision()
                        &&& applied.new_revision == old(self).spec_revision().next_spec()
                        &&& final(self).spec_revision() == applied.new_revision
                        &&& (final(self).spec_document() matches Some(d)
                            && utf8(d) == apply_from_back(text, sort_by_start(transaction.edits@)))
                    },
                }
            },
    {
        if transaction.expected_revision != self.revision {
            return Err(EngineError::Protocol(ProtocolError::RevisionConflict {
                expected: transaction.expected_revision,
                actual: self.revision,
            }));
        }
        let document = match self.document.take() {
            None => {
                return Err(EngineError::NotOpen);
            },
            Some(d) => d,
        };
        match transaction.validate_against(document.as_str(), mock_transaction_limits()) {
            Err(e) => {
                self.document = Some(document);
                return Err(EngineError::Protocol(e));
            },
            Ok(()) => {},
        }
        proof {
            law_admitted_transaction_applies(transaction.edits@, utf8(document@), mock_limits_spec());
        }
        let edits = sort_edits(transaction.edits);
        let updated = apply_sorted(document, edits);
        let previous_revision = self.revision;
        self.revision = self.revision.next();
        self.document = Some(updated);
        Ok(TransactionApplied { previous_revision, new_revision: self.revision })
    }
}

} // verus!
