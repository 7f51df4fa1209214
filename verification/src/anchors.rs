//! Product-owned durable paragraph anchors.

use vstd::prelude::*;

use crate::text::{decimal, hex_bytes, push_decimal, push_hex_bytes, push_text};

verus! {

/// Durable product-owned identity for one logical document lineage.
#[derive(Clone, Copy, Debug, Eq, Hash, Ord, PartialEq, PartialOrd)]
pub struct DocumentLineageId(pub [u8; 16]);

impl DocumentLineageId {
    pub fn from_bytes(bytes: [u8; 16]) -> (r: Self)
        ensures
            r.0 == bytes,
    {
        DocumentLineageId(bytes)
    }

    pub fn as_bytes(&self) -> (b: &[u8; 16])
        ensures
            *b == self.0,
    {
        &self.0
    }
}

/// Compares two lineages byte by byte.
pub fn lineage_eq(a: &DocumentLineageId, b: &DocumentLineageId) -> (r: bool)
    ensures
        r == (a.0@ == b.0@),
        r == (*a == *b),
{
    let mut i: usize = 0;
    while i < 16
        invariant
            0 <= i <= 16,
            forall|j: int| 0 <= j < i ==> a.0@[j] == b.0@[j],
        decreases 16 - i,
    {
        if a.0[i] != b.0[i] {
            return false;
        }
        i = i + 1;
    }
    proof {
        assert(a.0@ =~= b.0@);
        assert(a.0 =~= b.0);
    }
    true
}

/// Monotonic paragraph-anchor sequence inside one durable document lineage.
#[derive(Clone, Copy, Debug, Eq, Hash, Ord, PartialEq, PartialOrd, Structural)]
pub struct ParagraphAnchorSequence(pub u64);

impl ParagraphAnchorSequence {
    pub open spec fn spec_get(self) -> u64 {
        self.0
    }

    pub fn get(self) -> (v: u64)
        ensures
            v == self.spec_get(),
    {
        self.0
    }

    /// Sequences are equal exactly when their numbers are.
    pub proof fn lemma_eq(a: ParagraphAnchorSequence, b: ParagraphAnchorSequence)
        ensures
            (a == b) <==> (a.spec_get() == b.spec_get()),
    {
    }
}

/// Product-owned durable identity for one logical paragraph in a document lineage.
#[derive(Clone, Copy, Debug, Eq, Hash, Ord, PartialEq, PartialOrd)]
pub struct ParagraphAnchorId {
    pub(crate) lineage: DocumentLineageId,
    pub(crate) sequence: ParagraphAnchorSequence,
}

impl ParagraphAnchorId {
    pub closed spec fn spec_lineage(self) -> DocumentLineageId {
        self.lineage
    }

    pub closed spec fn spec_sequence(self) -> u64 {
        self.sequence.0
    }

    pub(crate) fn new(lineage: DocumentLineageId, sequence: ParagraphAnchorSequence) -> (r: Self)
        ensures
            r.spec_lineage() == lineage,
            r.spec_sequence() == sequence.spec_get(),
    {
        ParagraphAnchorId { lineage, sequence }
    }

    pub fn lineage(self) -> (l: DocumentLineageId)
        ensures
            l == self.spec_lineage(),
    {
        self.lineage
    }

    pub fn sequence(self) -> (s: ParagraphAnchorSequence)
        ensures
            s.spec_get() == self.spec_sequence(),
    {
        self.sequence
    }

    /// Ids are equal exactly when lineage and sequence are.
    pub proof fn lemma_eq(a: ParagraphAnchorId, b: ParagraphAnchorId)
        ensures
            (a == b) <==> (a.spec_lineage() == b.spec_lineage() && a.spec_sequence() == b.spec_sequence()),
    {
    }
}

/// One anchored paragraph plus semantic text retained only as reconciliation evidence.
#[derive(Clone, Debug, Eq, PartialEq)]
pub struct ParagraphAnchorRecord {
    pub(crate) id: ParagraphAnchorId,
    pub(crate) semantic_text: String,
}

impl ParagraphAnchorRecord {
    pub closed spec fn spec_id(&self) -> ParagraphAnchorId {
        self.id
    }

    pub closed spec fn spec_text(&self) -> Seq<char> {
        self.semantic_text@
    }

    /// What the record's spec accessors denote, for the artifact module of this crate.
    pub(crate) proof fn lemma_fields(&self)
        ensures
            self.spec_id() == self.id,
            self.spec_text() == self.semantic_text@,
    {
    }

    pub(crate) fn new(id: ParagraphAnchorId, semantic_text: String) -> (r: Self)
        ensures
            r.spec_id() == id,
            r.spec_text() == semantic_text@,
    {
        ParagraphAnchorRecord { id, semantic_text }
    }

    pub fn id(&self) -> (i: ParagraphAnchorId)
        ensures
            i == self.spec_id(),
    {
        self.id
    }

    pub fn semantic_text(&self) -> (t: &str)
        ensures
            t@ == self.spec_text(),
    {
        self.semantic_text.as_str()
    }

    /// A copy of this record.
    pub(crate) fn copy(&self) -> (r: Self)
        ensures
            r.spec_id() == self.spec_id(),
            r.spec_text() == self.spec_text(),
    {
        ParagraphAnchorRecord { id: self.id, semantic_text: self.semantic_text.clone() }
    }
}

/// Copies a sequence of records.
pub(crate) fn copy_records(records: &Vec<ParagraphAnchorRecord>) -> (r: Vec<ParagraphAnchorRecord>)
    ensures
        same_records(r@, records@),
{
    let mut out: Vec<ParagraphAnchorRecord> = Vec::new();
    let mut i: usize = 0;
    while i < records.len()
        invariant
            0 <= i <= records@.len(),
            same_records(out@, records@.subrange(0, i as int)),
        decreases records@.len() - i,
    {
        out.push(records[i].copy());
        i = i + 1;
    }
    proof {
        assert(records@.subrange(0, records@.len() as int) =~= records@);
    }
    out
}

/// What a record says: lineage, sequence and semantic text.
pub type AnchorView = (DocumentLineageId, u64, Seq<char>);

/// The view of one record.
pub open spec fn anchor_view(r: ParagraphAnchorRecord) -> AnchorView {
    (r.spec_id().spec_lineage(), r.spec_id().spec_sequence(), r.spec_text())
}

/// The views of a sequence of records.
pub open spec fn records_view(rs: Seq<ParagraphAnchorRecord>) -> Seq<AnchorView> {
    rs.map_values(|r: ParagraphAnchorRecord| anchor_view(r))
}

/// Two record sequences carry the same ids and texts in the same order.
pub open spec fn same_records(a: Seq<ParagraphAnchorRecord>, b: Seq<ParagraphAnchorRecord>) -> bool {
    &&& a.len() == b.len()
    &&& forall|i: int| 0 <= i < a.len() ==> (#[trigger] a[i]).spec_id() == b[i].spec_id() && a[i].spec_text() == b[i].spec_text()
}

/// Why a product-owned structural anchor mutation was rejected before changing the table.
#[derive(Clone, Copy, Debug, Eq, PartialEq, Structural)]
pub enum AnchorMutationError {
    ParagraphOutOfBounds { index: usize, paragraph_count: usize },
    NoFollowingParagraph { index: usize, paragraph_count: usize },
    SequenceExhausted,
}

/// Identity result of a product-owned merge operation.
#[derive(Clone, Copy, Debug, Eq, PartialEq)]
pub struct ParagraphMergeApplied {
    surviving: ParagraphAnchorId,
    retired: ParagraphAnchorId,
}

impl ParagraphMergeApplied {
    pub closed spec fn spec_surviving(self) -> ParagraphAnchorId {
        self.surviving
    }

    pub closed spec fn spec_retired(self) -> ParagraphAnchorId {
        self.retired
    }

    pub fn surviving(self) -> (s: ParagraphAnchorId)
        ensures
            s == self.spec_surviving(),
    {
        self.surviving
    }

    pub fn retired(self) -> (s: ParagraphAnchorId)
        ensures
            s == self.spec_retired(),
    {
        self.retired
    }
}

/// Well-formed anchor records of one lineage: each record belongs to the lineage, sequences are
/// nonzero, distinct, and below the next sequence to mint.
pub open spec fn records_wf(lineage: DocumentLineageId, next: u64, records: Seq<ParagraphAnchorRecord>) -> bool {
    &&& next >= 1
    &&& forall|i: int| 0 <= i < records.len() ==> (#[trigger] records[i]).spec_id().spec_lineage() == lineage
    &&& forall|i: int| 0 <= i < records.len() ==> 1 <= (#[trigger] records[i]).spec_id().spec_sequence() < next
    &&& forall|i: int, j: int| 0 <= i < records.len() && 0 <= j < records.len() && i != j
        ==> (#[trigger] records[i]).spec_id().spec_sequence() != (#[trigger] records[j]).spec_id().spec_sequence()
}

/// Some record carries sequence `s`.
pub open spec fn sequence_live(records: Seq<ParagraphAnchorRecord>, s: u64) -> bool {
    exists|i: int| 0 <= i < records.len() && (#[trigger] records[i]).spec_id().spec_sequence() == s
}

/// Live product-owned paragraph-anchor projection for one logical document lineage.
#[derive(Clone, Debug, Eq, PartialEq)]
pub struct ParagraphAnchorTable {
    pub(crate) lineage: DocumentLineageId,
    pub(crate) next_sequence: ParagraphAnchorSequence,
    pub(crate) paragraphs: Vec<ParagraphAnchorRecord>,
}

impl ParagraphAnchorTable {
    pub closed spec fn spec_lineage(&self) -> DocumentLineageId {
        self.lineage
    }

    pub closed spec fn spec_next(&self) -> u64 {
        self.next_sequence.0
    }

    pub closed spec fn spec_records(&self) -> Seq<ParagraphAnchorRecord> {
        self.paragraphs@
    }

    /// What the table's spec accessors denote, for the artifact module of this crate.
    pub(crate) proof fn lemma_fields(&self)
        ensures
            self.spec_lineage() == self.lineage,
            self.spec_next() == self.next_sequence.0,
            self.spec_records() == self.paragraphs@,
    {
    }

    /// The table invariant, established by every constructor and kept by every mutation.
    pub open spec fn wf(&self) -> bool {
        records_wf(self.spec_lineage(), self.spec_next(), self.spec_records())
    }

    /// Anchors a fresh projection: paragraph `i` gets sequence `i + 1`.
    pub fn from_projection(lineage: DocumentLineageId, semantic_paragraphs: Vec<String>) -> (r: Result<Self, AnchorMutationError>)
        ensures
            semantic_paragraphs@.len() < u64::MAX ==> r is Ok,
            r is Err ==> r == Err::<Self, AnchorMutationError>(AnchorMutationError::SequenceExhausted),
            r matches Ok(t) ==> {
                &&& t.wf()
                &&& t.spec_lineage() == lineage
                &&& t.spec_next() == semantic_paragraphs@.len() + 1
                &&& t.spec_records().len() == semantic_paragraphs@.len()
                &&& forall|i: int| 0 <= i < t.spec_records().len() ==>
                    (#[trigger] t.spec_records()[i]).spec_id().spec_sequence() == i + 1
                    && t.spec_records()[i].spec_text() == semantic_paragraphs@[i]@
            },
    {
        let ghost texts = semantic_paragraphs@;
        let mut rest = semantic_paragraphs;
        let mut table = ParagraphAnchorTable {
            lineage,
            next_sequence: ParagraphAnchorSequence(1),
            paragraphs: Vec::new(),
        };
        while rest.len() > 0
            invariant
                table.wf(),
                texts == semantic_paragraphs@,
                table.lineage == lineage,
                table.paragraphs@.len() + rest@.len() == texts.len(),
                rest@ == texts.subrange(table.paragraphs@.len() as int, texts.len() as int),
                table.next_sequence.0 == table.paragraphs@.len() + 1,
                forall|i: int| 0 <= i < table.paragraphs@.len() ==>
                    (#[trigger] table.paragraphs@[i]).spec_id().spec_sequence() == i + 1
                    && table.paragraphs@[i].spec_text() == texts[i]@,
            decreases rest@.len(),
        {
            let ghost done: int = table.paragraphs@.len() as int;
            let text = rest.remove(0);
            let id = match table.mint_anchor() {
                Err(e) => {
                    return Err(e);
                },
                Ok(id) => id,
            };
            table.paragraphs.push(ParagraphAnchorRecord::new(id, text));
            proof {
                assert(rest@ =~= texts.subrange(done + 1, texts.len() as int));
                assert(text == texts[done]);
            }
        }
        Ok(table)
    }

    pub fn lineage(&self) -> (l: DocumentLineageId)
        ensures
            l == self.spec_lineage(),
    {
        self.lineage
    }

    pub fn paragraphs(&self) -> (p: &[ParagraphAnchorRecord])
        ensures
            p@ == self.spec_records(),
    {
        self.paragraphs.as_slice()
    }

    /// Mints the next never-reused anchor of this lineage.
    fn mint_anchor(&mut self) -> (r: Result<ParagraphAnchorId, AnchorMutationError>)
        requires
            old(self).wf(),
        ensures
            final(self).spec_lineage() == old(self).spec_lineage(),
            final(self).spec_records() == old(self).spec_records(),
            old(self).spec_next() == u64::MAX ==> r == Err::<ParagraphAnchorId, AnchorMutationError>(AnchorMutationError::SequenceExhausted)
                && final(self).spec_next() == old(self).spec_next(),
            old(self).spec_next() < u64::MAX ==> {
                &&& final(self).spec_next() == old(self).spec_next() + 1
                &&& r matches Ok(id)
                &&& id.spec_lineage() == old(self).spec_lineage()
                &&& id.spec_sequence() == old(self).spec_next()
            },
            final(self).wf(),
    {
        let sequence = self.next_sequence;
        if sequence.0 == u64::MAX {
            return Err(AnchorMutationError::SequenceExhausted);
        }
        self.next_sequence = ParagraphAnchorSequence(sequence.0 + 1);
        Ok(ParagraphAnchorId::new(self.lineage, sequence))
    }

    /// Preserves paragraph identity while replacing its semantic text.
    pub fn replace_paragraph_text(&mut self, index: usize, semantic_text: String) -> (r: Result<ParagraphAnchorId, AnchorMutationError>)
        requires
            old(self).wf(),
        ensures
            final(self).wf(),
            never_reissues(*old(self), *final(self)),
            final(self).spec_lineage() == old(self).spec_lineage(),
            final(self).spec_next() == old(self).spec_next(),
            index >= old(self).spec_records().len() ==> r == Err::<ParagraphAnchorId, AnchorMutationError>(
                AnchorMutationError::ParagraphOutOfBounds { index, paragraph_count: old(self).spec_records().len() as usize })
                && final(self).spec_records() == old(self).spec_records(),
            index < old(self).spec_records().len() ==> {
                &&& r == Ok::<ParagraphAnchorId, AnchorMutationError>(old(self).spec_records()[index as int].spec_id())
                &&& final(self).spec_records().len() == old(self).spec_records().len()
                &&& forall|i: int| 0 <= i < old(self).spec_records().len() && i != index ==>
                    #[trigger] final(self).spec_records()[i] == old(self).spec_records()[i]
                &&& final(self).spec_records()[index as int].spec_id() == old(self).spec_records()[index as int].spec_id()
                &&& final(self).spec_records()[index as int].spec_text() == semantic_text@
            },
    {
        let paragraph_count = self.paragraphs.len();
        if index >= paragraph_count {
            return Err(AnchorMutationError::ParagraphOutOfBounds { index, paragraph_count });
        }
        let id = self.paragraphs[index].id;
        self.paragraphs.set(index, ParagraphAnchorRecord::new(id, semantic_text));
        Ok(id)
    }

    /// Inserts a new logical paragraph under a never-reused product anchor.
    pub fn insert_paragraph(&mut self, index: usize, semantic_text: String) -> (r: Result<ParagraphAnchorId, AnchorMutationError>)
        requires
            old(self).wf(),
        ensures
            final(self).wf(),
            never_reissues(*old(self), *final(self)),
            final(self).spec_lineage() == old(self).spec_lineage(),
            index > old(self).spec_records().len() ==> r == Err::<ParagraphAnchorId, AnchorMutationError>(
                AnchorMutationError::ParagraphOutOfBounds { index, paragraph_count: old(self).spec_records().len() as usize })
                && *final(self) == *old(self),
            index <= old(self).spec_records().len() && old(self).spec_next() == u64::MAX ==>
                r == Err::<ParagraphAnchorId, AnchorMutationError>(AnchorMutationError::SequenceExhausted)
                && final(self).spec_records() == old(self).spec_records(),
            index <= old(self).spec_records().len() && old(self).spec_next() < u64::MAX ==> {
                &&& r matches Ok(id)
                &&& id.spec_lineage() == old(self).spec_lineage()
                &&& id.spec_sequence() == old(self).spec_next()
                &&& final(self).spec_next() == old(self).spec_next() + 1
                &&& final(self).spec_records().len() == old(self).spec_records().len() + 1
                &&& final(self).spec_records()[index as int].spec_id() == id
                &&& final(self).spec_records()[index as int].spec_text() == semantic_text@
                &&& final(self).spec_records().remove(index as int) == old(self).spec_records()
            },
    {
        let paragraph_count = self.paragraphs.len();
        if index > paragraph_count {
            return Err(AnchorMutationError::ParagraphOutOfBounds { index, paragraph_count });
        }
        let id = match self.mint_anchor() {
            Err(e) => {
                return Err(e);
            },
            Ok(id) => id,
        };
        self.paragraphs.insert(index, ParagraphAnchorRecord::new(id, semantic_text));
        proof {
            assert(self.paragraphs@.remove(index as int) =~= old(self).paragraphs@);
        }
        Ok(id)
    }

    /// Splits one paragraph: the left fragment keeps the existing anchor, the right fragment gets
    /// a freshly minted one.
    pub fn split_paragraph(&mut self, index: usize, left_text: String, right_text: String) -> (r: Result<(ParagraphAnchorId, ParagraphAnchorId), AnchorMutationError>)
        requires
            old(self).wf(),
        ensures
            final(self).wf(),
            never_reissues(*old(self), *final(self)),
            final(self).spec_lineage() == old(self).spec_lineage(),
            index >= old(self).spec_records().len() ==> r == Err::<(ParagraphAnchorId, ParagraphAnchorId), AnchorMutationError>(
                AnchorMutationError::ParagraphOutOfBounds { index, paragraph_count: old(self).spec_records().len() as usize })
                && *final(self) == *old(self),
            index < old(self).spec_records().len() && old(self).spec_next() == u64::MAX ==>
                r == Err::<(ParagraphAnchorId, ParagraphAnchorId), AnchorMutationError>(AnchorMutationError::SequenceExhausted)
                && final(self).spec_records() == old(self).spec_records(),
            index < old(self).spec_records().len() && old(self).spec_next() < u64::MAX ==> {
                &&& r matches Ok((left, right))
                &&& left == old(self).spec_records()[index as int].spec_id()
                &&& right.spec_lineage() == old(self).spec_lineage()
                &&& right.spec_sequence() == old(self).spec_next()
                &&& final(self).spec_next() == old(self).spec_next() + 1
                &&& final(self).spec_records().len() == old(self).spec_records().len() + 1
                &&& final(self).spec_records()[index as int].spec_id() == left
                &&& final(self).spec_records()[index as int].spec_text() == left_text@
                &&& final(self).spec_records()[index + 1].spec_id() == right
                &&& final(self).spec_records()[index + 1].spec_text() == right_text@
                &&& forall|i: int| 0 <= i < index ==> #[trigger] final(self).spec_records()[i] == old(self).spec_records()[i]
                &&& forall|i: int| index + 1 < i < final(self).spec_records().len() ==> #[trigger] final(self).spec_records()[i] == old(self).spec_records()[i - 1]
            },
    {
        let paragraph_count = self.paragraphs.len();
        if index >= paragraph_count {
            return Err(AnchorMutationError::ParagraphOutOfBounds { index, paragraph_count });
        }
        let kept_id = self.paragraphs[index].id;
        let right_id = match self.mint_anchor() {
            Err(e) => {
                return Err(e);
            },
            Ok(id) => id,
        };
        self.paragraphs.set(index, ParagraphAnchorRecord::new(kept_id, left_text));
        self.paragraphs.insert(index + 1, ParagraphAnchorRecord::new(right_id, right_text));
        Ok((kept_id, right_id))
    }

    /// Merges one paragraph with its following paragraph: the left anchor survives and the right
    /// anchor is retired permanently.
    pub fn merge_with_next(&mut self, index: usize, merged_text: String) -> (r: Result<ParagraphMergeApplied, AnchorMutationError>)
        requires
            old(self).wf(),
        ensures
            final(self).wf(),
            never_reissues(*old(self), *final(self)),
            final(self).spec_lineage() == old(self).spec_lineage(),
            final(self).spec_next() == old(self).spec_next(),
            index >= old(self).spec_records().len() ==> r == Err::<ParagraphMergeApplied, AnchorMutationError>(
                AnchorMutationError::ParagraphOutOfBounds { index, paragraph_count: old(self).spec_records().len() as usize })
                && final(self).spec_records() == old(self).spec_records(),
            index < old(self).spec_records().len() && index + 1 >= old(self).spec_records().len() ==>
                r == Err::<ParagraphMergeApplied, AnchorMutationError>(
                AnchorMutationError::NoFollowingParagraph { index, paragraph_count: old(self).spec_records().len() as usize })
                && final(self).spec_records() == old(self).spec_records(),
            index + 1 < old(self).spec_records().len() ==> {
                &&& r matches Ok(m)
                &&& m.spec_surviving() == old(self).spec_records()[index as int].spec_id()
                &&& m.spec_retired() == old(self).spec_records()[index + 1].spec_id()
                &&& final(self).spec_records().len() == old(self).spec_records().len() - 1
                &&& final(self).spec_records()[index as int].spec_id() == m.spec_surviving()
                &&& final(self).spec_records()[index as int].spec_text() == merged_text@
                &&& forall|i: int| 0 <= i < index ==> #[trigger] final(self).spec_records()[i] == old(self).spec_records()[i]
                &&& forall|i: int| index < i < final(self).spec_records().len() ==> #[trigger] final(self).spec_records()[i] == old(self).spec_records()[i + 1]
            },
    {
        let paragraph_count = self.paragraphs.len();
        if index >= paragraph_count {
            return Err(AnchorMutationError::ParagraphOutOfBounds { index, paragraph_count });
        }
        if index + 1 >= paragraph_count {
            return Err(AnchorMutationError::NoFollowingParagraph { index, paragraph_count });
        }
        let surviving = self.paragraphs[index].id;
        self.paragraphs.set(index, ParagraphAnchorRecord::new(surviving, merged_text));
        let retired = self.paragraphs.remove(index + 1).id;
        Ok(ParagraphMergeApplied { surviving, retired })
    }

    /// Deletes one logical paragraph and permanently retires its anchor.
    pub fn delete_paragraph(&mut self, index: usize) -> (r: Result<ParagraphAnchorId, AnchorMutationError>)
        requires
            old(self).wf(),
        ensures
            final(self).wf(),
            never_reissues(*old(self), *final(self)),
            final(self).spec_lineage() == old(self).spec_lineage(),
            final(self).spec_next() == old(self).spec_next(),
            index >= old(self).spec_records().len() ==> r == Err::<ParagraphAnchorId, AnchorMutationError>(
                AnchorMutationError::ParagraphOutOfBounds { index, paragraph_count: old(self).spec_records().len() as usize })
                && final(self).spec_records() == old(self).spec_records(),
            index < old(self).spec_records().len() ==>
                r == Ok::<ParagraphAnchorId, AnchorMutationError>(old(self).spec_records()[index as int].spec_id())
                && final(self).spec_records() == old(self).spec_records().remove(index as int),
    {
        let paragraph_count = self.paragraphs.len();
        if index >= paragraph_count {
            return Err(AnchorMutationError::ParagraphOutOfBounds { index, paragraph_count });
        }
        Ok(self.paragraphs.remove(index).id)
    }
}

/// One step of a table's history issues no sequence below the earlier frontier that was not
/// already live: the frontier does not go down, and every live sequence afterwards was live
/// before or is at or past the earlier frontier.
pub open spec fn never_reissues(before: ParagraphAnchorTable, after: ParagraphAnchorTable) -> bool {
    &&& before.spec_next() <= after.spec_next()
    &&& forall|s: u64| #[trigger] sequence_live(after.spec_records(), s)
        ==> sequence_live(before.spec_records(), s) || s >= before.spec_next()
}

/// Law: a sequence retired by a merge or delete (or never live) below a table's frontier is never
/// live again in any later table of its history, when each step is one of the table's
/// mutations (each ensures `never_reissues`).
pub proof fn law_retired_sequence_stays_retired(history: Seq<ParagraphAnchorTable>, s: u64)
    requires
        history.len() >= 1,
        forall|k: int| 0 <= k < history.len() - 1 ==> never_reissues(#[trigger] history[k], history[k + 1]),
        s < history[0].spec_next(),
        !sequence_live(history[0].spec_records(), s),
    ensures
        forall|k: int| 0 <= k < history.len() ==> !#[trigger] sequence_live(history[k].spec_records(), s),
    decreases history.len(),
{
    if history.len() > 1 {
        let rest = history.drop_first();
        assert(never_reissues(history[0], history[1]));
        assert(rest[0] == history[1]);
        assert(!sequence_live(history[1].spec_records(), s));
        assert forall|k: int| 0 <= k < rest.len() - 1 implies never_reissues(#[trigger] rest[k], rest[k + 1]) by {
            assert(rest[k] == history[k + 1]);
            assert(rest[k + 1] == history[k + 2]);
            assert(never_reissues(history[k + 1], history[k + 2]));
        }
        law_retired_sequence_stays_retired(rest, s);
        assert forall|k: int| 0 <= k < history.len() implies !#[trigger] sequence_live(history[k].spec_records(), s) by {
            if k > 0 {
                assert(rest[k - 1] == history[k]);
            }
        }
    }
}

/// The diagnostic text of a refused anchor mutation.
pub open spec fn anchor_mutation_error_text(e: AnchorMutationError) -> Seq<char> {
    match e {
        AnchorMutationError::ParagraphOutOfBounds { index, paragraph_count } => "paragraph index "@ + decimal(index as nat) + " is outside paragraph count "@ + decimal(paragraph_count as nat),
        AnchorMutationError::NoFollowingParagraph { index, paragraph_count } => "paragraph index "@ + decimal(index as nat) + " has no following paragraph in count "@ + decimal(paragraph_count as nat),
        AnchorMutationError::SequenceExhausted => "paragraph anchor sequence exhausted"@,
    }
}

impl AnchorMutationError {
    /// The diagnostic text of the error.
    pub fn message(&self) -> (m: String)
        ensures
            m@ == anchor_mutation_error_text(*self),
    {
        let mut m = String::new();
        match *self {
            AnchorMutationError::ParagraphOutOfBounds { index, paragraph_count } => {
                push_text(&mut m, "paragraph index ");
                push_decimal(&mut m, index as u64);
                push_text(&mut m, " is outside paragraph count ");
                push_decimal(&mut m, paragraph_count as u64);
            },
            AnchorMutationError::NoFollowingParagraph { index, paragraph_count } => {
                push_text(&mut m, "paragraph index ");
                push_decimal(&mut m, index as u64);
                push_text(&mut m, " has no following paragraph in count ");
                push_decimal(&mut m, paragraph_count as u64);
            },
            AnchorMutationError::SequenceExhausted => {
                push_text(&mut m, "paragraph anchor sequence exhausted");
            },
        }
        proof {
            assert(m@ =~= anchor_mutation_error_text(*self));
        }
        m
    }
}

/// A lineage as 32 lowercase hexadecimal digits.
pub open spec fn lineage_text(l: DocumentLineageId) -> Seq<char> {
    hex_bytes(l.0@)
}

/// An anchor id as `<lineage>:<sequence>`.
pub open spec fn anchor_id_text(a: ParagraphAnchorId) -> Seq<char> {
    lineage_text(a.spec_lineage()) + ":"@ + decimal(a.spec_sequence() as nat)
}

impl DocumentLineageId {
    /// The lineage as 32 lowercase hexadecimal digits.
    pub fn text(&self) -> (t: String)
        ensures
            t@ == lineage_text(*self),
    {
        let mut t = String::new();
        push_hex_bytes(&mut t, &self.0);
        t
    }
}

impl ParagraphAnchorId {
    /// The id as `<lineage>:<sequence>`.
    pub fn text(&self) -> (t: String)
        ensures
            t@ == anchor_id_text(*self),
    {
        let mut t = self.lineage.text();
        push_text(&mut t, ":");
        push_decimal(&mut t, self.sequence.0);
        t
    }
}

} // verus!
