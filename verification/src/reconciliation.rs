//! Product-owned logical anchor identity and conservative reconciliation.

use vstd::prelude::*;
use crate::session::{AcceptedOperationSequence, AuthorityGeneration, SessionAuthorityStamp};

use crate::text::{decimal, push_decimal, push_text};

verus! {

/// Product-owned history lineage namespace.
#[derive(Clone, Copy, Debug, Eq, Hash, Ord, PartialEq, PartialOrd, Structural)]
pub struct HistoryLineageId(pub u128);

impl HistoryLineageId {
    pub fn new(value: u128) -> (r: Self)
        ensures
            r.0 == value,
    {
        HistoryLineageId(value)
    }

    pub fn get(self) -> (v: u128)
        ensures
            v == self.0,
    {
        self.0
    }
}

/// Durable product-owned identity for one logical anchor inside a history lineage.
#[derive(Clone, Copy, Debug, Eq, Hash, Ord, PartialEq, PartialOrd, Structural)]
pub struct LogicalAnchorId {
    lineage: HistoryLineageId,
    local_sequence: u64,
}

impl LogicalAnchorId {
    pub closed spec fn spec_lineage(self) -> HistoryLineageId {
        self.lineage
    }

    pub closed spec fn spec_local_sequence(self) -> u64 {
        self.local_sequence
    }

    fn new(lineage: HistoryLineageId, local_sequence: u64) -> (r: Self)
        ensures
            r.spec_lineage() == lineage,
            r.spec_local_sequence() == local_sequence,
    {
        LogicalAnchorId { lineage, local_sequence }
    }

    pub fn lineage(self) -> (l: HistoryLineageId)
        ensures
            l == self.spec_lineage(),
    {
        self.lineage
    }

    pub fn local_sequence(self) -> (s: u64)
        ensures
            s == self.spec_local_sequence(),
    {
        self.local_sequence
    }

    /// Ids are equal exactly when lineage and sequence are.
    pub proof fn lemma_eq(a: LogicalAnchorId, b: LogicalAnchorId)
        ensures
            (a == b) <==> (a.spec_lineage() == b.spec_lineage() && a.spec_local_sequence() == b.spec_local_sequence()),
    {
    }
}

/// Logical-anchor allocation cannot continue without re-namespacing the history lineage.
#[derive(Clone, Copy, Debug, Eq, PartialEq, Structural)]
pub enum AnchorAllocationError {
    SequenceExhausted,
}

/// Persistable product anchor plus caller-defined reconciliation hint.
#[derive(Clone, Debug, Eq, PartialEq)]
pub struct DurableLogicalAnchor<H> {
    id: LogicalAnchorId,
    hint: H,
}

/// Monotonic allocator for logical anchors inside one history lineage.
#[derive(Clone, Copy, Debug, Eq, PartialEq, Structural)]
pub struct LogicalAnchorAllocator {
    lineage: HistoryLineageId,
    last_issued: u64,
}

impl LogicalAnchorAllocator {
    pub closed spec fn spec_lineage(self) -> HistoryLineageId {
        self.lineage
    }

    pub closed spec fn spec_last_issued(self) -> u64 {
        self.last_issued
    }

    pub fn new(lineage: HistoryLineageId) -> (r: Self)
        ensures
            r.spec_lineage() == lineage,
            r.spec_last_issued() == 0,
    {
        LogicalAnchorAllocator { lineage, last_issued: 0 }
    }

    /// Restores an allocator from its persisted cursor.
    pub fn resume(lineage: HistoryLineageId, last_issued: u64) -> (r: Self)
        ensures
            r.spec_lineage() == lineage,
            r.spec_last_issued() == last_issued,
    {
        LogicalAnchorAllocator { lineage, last_issued }
    }

    pub fn lineage(self) -> (l: HistoryLineageId)
        ensures
            l == self.spec_lineage(),
    {
        self.lineage
    }

    pub fn last_issued(self) -> (v: u64)
        ensures
            v == self.spec_last_issued(),
    {
        self.last_issued
    }

    /// Mints the next anchor of this lineage; sequences are never reissued.
    pub fn mint<H>(&mut self, hint: H) -> (r: Result<DurableLogicalAnchor<H>, AnchorAllocationError>)
        ensures
            final(self).spec_lineage() == old(self).spec_lineage(),
            old(self).spec_last_issued() == u64::MAX ==> r == Err::<DurableLogicalAnchor<H>, AnchorAllocationError>(AnchorAllocationError::SequenceExhausted)
                && *final(self) == *old(self),
            old(self).spec_last_issued() < u64::MAX ==> {
                &&& final(self).spec_last_issued() == old(self).spec_last_issued() + 1
                &&& r matches Ok(a)
                &&& a.spec_id().spec_lineage() == old(self).spec_lineage()
                &&& a.spec_id().spec_local_sequence() == final(self).spec_last_issued()
                &&& a.spec_hint() == hint
            },
    {
        if self.last_issued == u64::MAX {
            return Err(AnchorAllocationError::SequenceExhausted);
        }
        let next = self.last_issued + 1;
        self.last_issued = next;
        Ok(DurableLogicalAnchor { id: LogicalAnchorId::new(self.lineage, next), hint })
    }
}

/// Law: anchors minted one after another, possibly across a persisted resume, carry strictly
/// increasing sequences within the same lineage, so no sequence is ever reused.
pub proof fn law_allocation_is_monotonic(before: LogicalAnchorAllocator, after: LogicalAnchorAllocator, first: LogicalAnchorId, second: LogicalAnchorId)
    requires
        first.spec_local_sequence() == before.spec_last_issued(),
        before.spec_lineage() == after.spec_lineage(),
        before.spec_last_issued() <= after.spec_last_issued(),
        after.spec_last_issued() < u64::MAX,
        second.spec_local_sequence() == after.spec_last_issued() + 1,
    ensures
        first.spec_local_sequence() < second.spec_local_sequence(),
        first != second,
{
}

impl<H> DurableLogicalAnchor<H> {
    pub closed spec fn spec_id(&self) -> LogicalAnchorId {
        self.id
    }

    pub closed spec fn spec_hint(&self) -> H {
        self.hint
    }

    pub fn id(&self) -> (i: LogicalAnchorId)
        ensures
            i == self.spec_id(),
    {
        self.id
    }

    pub fn hint(&self) -> (h: &H)
        ensures
            *h == self.spec_hint(),
    {
        &self.hint
    }

    pub fn into_hint(self) -> (h: H)
        ensures
            h == self.spec_hint(),
    {
        self.hint
    }

    /// Transforms the hint; the anchor identity is unchanged.
    pub fn map_hint<U, F: FnOnce(H) -> U>(self, map: F) -> (r: DurableLogicalAnchor<U>)
        requires
            map.requires((self.spec_hint(),)),
        ensures
            r.spec_id() == self.spec_id(),
            map.ensures((self.spec_hint(),), r.spec_hint()),
    {
        let id = self.id;
        let hint = map(self.hint);
        DurableLogicalAnchor { id, hint }
    }

    /// Establishes an initial live binding from an already-authoritative product projection.
    pub fn bind<T>(&self, authority: SessionAuthorityStamp, target: T) -> (b: LiveAnchorBinding<T>)
        ensures
            b.spec_anchor() == self.spec_id(),
            b.spec_authority() == authority,
            b.spec_target() == target,
    {
        LiveAnchorBinding::new(self.id, authority, target)
    }
}

/// Ephemeral binding of a durable anchor to one target in one exact live authority/revision.
#[derive(Clone, Debug, Eq, PartialEq)]
pub struct LiveAnchorBinding<T> {
    anchor: LogicalAnchorId,
    authority: SessionAuthorityStamp,
    target: T,
}

impl<T> LiveAnchorBinding<T> {
    pub closed spec fn spec_anchor(&self) -> LogicalAnchorId {
        self.anchor
    }

    pub closed spec fn spec_authority(&self) -> SessionAuthorityStamp {
        self.authority
    }

    pub closed spec fn spec_target(&self) -> T {
        self.target
    }

    fn new(anchor: LogicalAnchorId, authority: SessionAuthorityStamp, target: T) -> (b: Self)
        ensures
            b.spec_anchor() == anchor,
            b.spec_authority() == authority,
            b.spec_target() == target,
    {
        LiveAnchorBinding { anchor, authority, target }
    }

    pub fn anchor(&self) -> (a: LogicalAnchorId)
        ensures
            a == self.spec_anchor(),
    {
        self.anchor
    }

    pub fn authority(&self) -> (a: SessionAuthorityStamp)
        ensures
            a == self.spec_authority(),
    {
        self.authority
    }

    pub fn target(&self) -> (t: &T)
        ensures
            *t == self.spec_target(),
    {
        &self.target
    }
}

/// Conservative evidence channels for one candidate target.
#[derive(Clone, Copy, Debug, Default, Eq, PartialEq, Structural)]
pub struct ReconciliationEvidence {
    product_lineage: Option<AcceptedOperationSequence>,
    same_authority_engine_continuity: bool,
    structural_neighbourhood_match: bool,
    semantic_equivalence: bool,
}

impl ReconciliationEvidence {
    pub closed spec fn spec_product_lineage(self) -> Option<AcceptedOperationSequence> {
        self.product_lineage
    }

    pub closed spec fn spec_engine_continuity(self) -> bool {
        self.same_authority_engine_continuity
    }

    pub closed spec fn spec_structural(self) -> bool {
        self.structural_neighbourhood_match
    }

    pub closed spec fn spec_semantic(self) -> bool {
        self.semantic_equivalence
    }

    pub fn product_lineage(self) -> (r: Option<AcceptedOperationSequence>)
        ensures
            r == self.spec_product_lineage(),
    {
        self.product_lineage
    }

    pub fn same_authority_engine_continuity(self) -> (r: bool)
        ensures
            r == self.spec_engine_continuity(),
    {
        self.same_authority_engine_continuity
    }

    pub fn structural_neighbourhood_match(self) -> (r: bool)
        ensures
            r == self.spec_structural(),
    {
        self.structural_neighbourhood_match
    }

    pub fn semantic_equivalence(self) -> (r: bool)
        ensures
            r == self.spec_semantic(),
    {
        self.semantic_equivalence
    }
}

#[derive(Clone, Copy, Debug, Eq, PartialEq, Structural)]
pub enum ReconciliationEvidenceError {
    EngineContinuityCrossesAuthority { source: AuthorityGeneration, candidate: AuthorityGeneration },
}

/// One possible target for a durable anchor in a new semantic observation.
#[derive(Clone, Debug, Eq, PartialEq)]
pub struct ReconciliationCandidate<T> {
    authority: SessionAuthorityStamp,
    target: T,
    evidence: ReconciliationEvidence,
}

impl<T> ReconciliationCandidate<T> {
    pub closed spec fn spec_authority(&self) -> SessionAuthorityStamp {
        self.authority
    }

    pub closed spec fn spec_target(&self) -> T {
        self.target
    }

    pub closed spec fn spec_evidence(&self) -> ReconciliationEvidence {
        self.evidence
    }

    /// A candidate with no evidence yet.
    pub fn new(authority: SessionAuthorityStamp, target: T) -> (c: Self)
        ensures
            c.spec_authority() == authority,
            c.spec_target() == target,
            c.spec_evidence().spec_product_lineage() is None,
            !c.spec_evidence().spec_engine_continuity(),
            !c.spec_evidence().spec_structural(),
            !c.spec_evidence().spec_semantic(),
    {
        ReconciliationCandidate {
            authority,
            target,
            evidence: ReconciliationEvidence {
                product_lineage: None,
                same_authority_engine_continuity: false,
                structural_neighbourhood_match: false,
                semantic_equivalence: false,
            },
        }
    }

    /// Records an explicit product-owned operation mapping to this candidate.
    pub fn with_product_lineage(self, operation: AcceptedOperationSequence) -> (c: Self)
        ensures
            c.spec_authority() == self.spec_authority(),
            c.spec_target() == self.spec_target(),
            c.spec_evidence().spec_product_lineage() == Some(operation),
            c.spec_evidence().spec_engine_continuity() == self.spec_evidence().spec_engine_continuity(),
            c.spec_evidence().spec_structural() == self.spec_evidence().spec_structural(),
            c.spec_evidence().spec_semantic() == self.spec_evidence().spec_semantic(),
    {
        let mut c = self;
        c.evidence.product_lineage = Some(operation);
        c
    }

    pub fn with_structural_neighbourhood_match(self) -> (c: Self)
        ensures
            c.spec_authority() == self.spec_authority(),
            c.spec_target() == self.spec_target(),
            c.spec_evidence().spec_product_lineage() == self.spec_evidence().spec_product_lineage(),
            c.spec_evidence().spec_engine_continuity() == self.spec_evidence().spec_engine_continuity(),
            c.spec_evidence().spec_structural(),
            c.spec_evidence().spec_semantic() == self.spec_evidence().spec_semantic(),
    {
        let mut c = self;
        c.evidence.structural_neighbourhood_match = true;
        c
    }

    pub fn with_semantic_equivalence(self) -> (c: Self)
        ensures
            c.spec_authority() == self.spec_authority(),
            c.spec_target() == self.spec_target(),
            c.spec_evidence().spec_product_lineage() == self.spec_evidence().spec_product_lineage(),
            c.spec_evidence().spec_engine_continuity() == self.spec_evidence().spec_engine_continuity(),
            c.spec_evidence().spec_structural() == self.spec_evidence().spec_structural(),
            c.spec_evidence().spec_semantic(),
    {
        let mut c = self;
        c.evidence.semantic_equivalence = true;
        c
    }

    /// Records same-live-engine-object continuity; forbidden across authority replacement.
    pub fn with_same_authority_engine_continuity<U>(self, prior: &LiveAnchorBinding<U>) -> (r: Result<Self, ReconciliationEvidenceError>)
        ensures
            prior.spec_authority().spec_generation() != self.spec_authority().spec_generation() ==>
                r == Err::<Self, ReconciliationEvidenceError>(ReconciliationEvidenceError::EngineContinuityCrossesAuthority {
                    source: prior.spec_authority().spec_generation(),
                    candidate: self.spec_authority().spec_generation(),
                }),
            prior.spec_authority().spec_generation() == self.spec_authority().spec_generation() ==> {
                &&& r matches Ok(c)
                &&& c.spec_authority() == self.spec_authority()
                &&& c.spec_target() == self.spec_target()
                &&& c.spec_evidence().spec_product_lineage() == self.spec_evidence().spec_product_lineage()
                &&& c.spec_evidence().spec_engine_continuity()
                &&& c.spec_evidence().spec_structural() == self.spec_evidence().spec_structural()
                &&& c.spec_evidence().spec_semantic() == self.spec_evidence().spec_semantic()
            },
    {
        let source = prior.authority().authority_generation();
        let candidate = self.authority.authority_generation();
        if source != candidate {
            return Err(ReconciliationEvidenceError::EngineContinuityCrossesAuthority { source, candidate });
        }
        let mut c = self;
        c.evidence.same_authority_engine_continuity = true;
        Ok(c)
    }

    pub fn authority(&self) -> (a: SessionAuthorityStamp)
        ensures
            a == self.spec_authority(),
    {
        self.authority
    }

    pub fn target(&self) -> (t: &T)
        ensures
            *t == self.spec_target(),
    {
        &self.target
    }

    pub fn evidence(&self) -> (e: ReconciliationEvidence)
        ensures
            e == self.spec_evidence(),
    {
        self.evidence
    }
}

/// Positive basis used to establish a replacement live binding.
#[derive(Clone, Copy, Debug, Eq, PartialEq, Structural)]
pub enum ReconciliationBasis {
    ProductLineage(AcceptedOperationSequence),
    SameAuthorityEngineContinuity,
    UniqueStructuralAndSemanticMatch,
}

/// Conservative result of reconciling one durable anchor against one current semantic snapshot.
#[derive(Clone, Debug, Eq, PartialEq)]
pub enum ReconciliationOutcome<T> {
    Rebound { binding: LiveAnchorBinding<T>, basis: ReconciliationBasis },
    Ambiguous,
    Unresolved,
}

#[derive(Clone, Copy, Debug, Eq, PartialEq, Structural)]
pub enum ReconciliationError {
    CandidateAuthorityMismatch { expected: SessionAuthorityStamp, actual: SessionAuthorityStamp },
}

/// The evidence channels reconciliation counts.
pub enum EvidenceChannel {
    ProductLineage,
    EngineContinuity,
    StructuralAndSemantic,
    StructuralOrSemantic,
}

/// Whether a candidate carries evidence on one channel.
pub open spec fn shows<T>(c: ReconciliationCandidate<T>, ch: EvidenceChannel) -> bool {
    let e = c.spec_evidence();
    match ch {
        EvidenceChannel::ProductLineage => e.spec_product_lineage() is Some,
        EvidenceChannel::EngineContinuity => e.spec_engine_continuity(),
        EvidenceChannel::StructuralAndSemantic => e.spec_structural() && e.spec_semantic(),
        EvidenceChannel::StructuralOrSemantic => e.spec_structural() || e.spec_semantic(),
    }
}

/// How many of the first `n` candidates carry evidence on a channel.
pub open spec fn count_showing<T>(cs: Seq<ReconciliationCandidate<T>>, ch: EvidenceChannel, n: int) -> nat
    decreases n,
{
    if n <= 0 {
        0
    } else {
        count_showing(cs, ch, n - 1) + if shows(cs[n - 1], ch) { 1nat } else { 0nat }
    }
}

/// Index of the first candidate at or after `i` carrying evidence on a channel.
pub open spec fn first_showing<T>(cs: Seq<ReconciliationCandidate<T>>, ch: EvidenceChannel, i: int) -> int
    decreases cs.len() - i,
{
    if i < 0 || i >= cs.len() {
        cs.len() as int
    } else if shows(cs[i], ch) {
        i
    } else {
        first_showing(cs, ch, i + 1)
    }
}

/// Index of the first candidate at or after `i` whose authority differs from `target`.
pub open spec fn first_mismatch<T>(cs: Seq<ReconciliationCandidate<T>>, target: SessionAuthorityStamp, i: int) -> int
    decreases cs.len() - i,
{
    if i < 0 || i >= cs.len() {
        cs.len() as int
    } else if cs[i].spec_authority() != target {
        i
    } else {
        first_mismatch(cs, target, i + 1)
    }
}

/// `r` rebinds `anchor` under `target` to a clone of candidate `c`'s target, on `basis`.
pub open spec fn rebound_to<T: Clone>(
    r: ReconciliationOutcome<T>,
    anchor: LogicalAnchorId,
    target: SessionAuthorityStamp,
    c: ReconciliationCandidate<T>,
    basis: ReconciliationBasis,
) -> bool {
    &&& r is Rebound
    &&& r->binding.spec_anchor() == anchor
    &&& r->binding.spec_authority() == target
    &&& cloned(c.spec_target(), r->binding.spec_target())
    &&& r->basis == basis
}

/// The lexicographic, conservative reconciliation decision (when every candidate belongs to the
/// target authority): unique product lineage (unless another candidate claims engine
/// continuity), then unique engine continuity, then a unique structural-and-semantic match; more
/// than one plausible candidate at the deciding level is ambiguous; otherwise unresolved.
pub open spec fn reconciled<T: Clone>(
    r: ReconciliationOutcome<T>,
    anchor: LogicalAnchorId,
    target: SessionAuthorityStamp,
    cs: Seq<ReconciliationCandidate<T>>,
) -> bool {
    let n = cs.len() as int;
    let lineage = count_showing(cs, EvidenceChannel::ProductLineage, n);
    let engine = count_showing(cs, EvidenceChannel::EngineContinuity, n);
    let both = count_showing(cs, EvidenceChannel::StructuralAndSemantic, n);
    let weak = count_showing(cs, EvidenceChannel::StructuralOrSemantic, n);
    if lineage > 1 {
        r is Ambiguous
    } else if lineage == 1 {
        let i = first_showing(cs, EvidenceChannel::ProductLineage, 0);
        let own_engine: nat = if shows(cs[i], EvidenceChannel::EngineContinuity) { 1 } else { 0 };
        if engine > own_engine {
            r is Ambiguous
        } else {
            rebound_to(r, anchor, target, cs[i],
                ReconciliationBasis::ProductLineage(cs[i].spec_evidence().spec_product_lineage().unwrap()))
        }
    } else if engine > 1 {
        r is Ambiguous
    } else if engine == 1 {
        rebound_to(r, anchor, target, cs[first_showing(cs, EvidenceChannel::EngineContinuity, 0)],
            ReconciliationBasis::SameAuthorityEngineContinuity)
    } else if both > 1 {
        r is Ambiguous
    } else if both == 1 {
        rebound_to(r, anchor, target, cs[first_showing(cs, EvidenceChannel::StructuralAndSemantic, 0)],
            ReconciliationBasis::UniqueStructuralAndSemanticMatch)
    } else if weak > 1 {
        r is Ambiguous
    } else {
        r is Unresolved
    }
}

proof fn lemma_count_step<T>(cs: Seq<ReconciliationCandidate<T>>, ch: EvidenceChannel, n: int)
    requires
        0 <= n < cs.len(),
    ensures
        count_showing(cs, ch, n + 1) == count_showing(cs, ch, n) + if shows(cs[n], ch) { 1nat } else { 0nat },
{
}

proof fn lemma_first_mismatch_skip<T>(cs: Seq<ReconciliationCandidate<T>>, target: SessionAuthorityStamp, i: int)
    requires
        0 <= i <= cs.len(),
        forall|j: int| 0 <= j < i ==> (#[trigger] cs[j]).spec_authority() == target,
    ensures
        first_mismatch(cs, target, 0) == first_mismatch(cs, target, i),
    decreases i,
{
    if i > 0 {
        lemma_first_mismatch_skip(cs, target, i - 1);
    }
}

proof fn lemma_count_none<T>(cs: Seq<ReconciliationCandidate<T>>, ch: EvidenceChannel, n: int)
    requires
        n <= cs.len(),
        forall|k: int| 0 <= k < n ==> !shows(#[trigger] cs[k], ch),
    ensures
        count_showing(cs, ch, n) == 0,
    decreases n,
{
    if n > 0 {
        lemma_count_none(cs, ch, n - 1);
    }
}

proof fn lemma_count_at_least<T>(cs: Seq<ReconciliationCandidate<T>>, ch: EvidenceChannel, i: int, j: int, n: int)
    requires
        0 <= i < j < n <= cs.len(),
        shows(cs[i], ch),
        shows(cs[j], ch),
    ensures
        count_showing(cs, ch, n) >= 2,
    decreases n,
{
    if n - 1 > j {
        lemma_count_at_least(cs, ch, i, j, n - 1);
    } else {
        assert(n - 1 == j);
        lemma_count_one(cs, ch, i, j);
    }
}

proof fn lemma_count_one<T>(cs: Seq<ReconciliationCandidate<T>>, ch: EvidenceChannel, i: int, n: int)
    requires
        0 <= i < n <= cs.len(),
        shows(cs[i], ch),
    ensures
        count_showing(cs, ch, n) >= 1,
    decreases n,
{
    if n - 1 > i {
        lemma_count_one(cs, ch, i, n - 1);
    }
}

/// A rebinding on structural and semantic evidence needs a single such candidate: when no
/// candidate carries product lineage or engine continuity, and two distinct candidates each
/// show both a structural neighbourhood match and semantic equivalence, the outcome is
/// `Ambiguous`.
pub proof fn law_two_structural_and_semantic_matches_are_ambiguous<T: Clone>(
    r: ReconciliationOutcome<T>,
    anchor: LogicalAnchorId,
    target: SessionAuthorityStamp,
    cs: Seq<ReconciliationCandidate<T>>,
    i: int,
    j: int,
)
    requires
        reconciled(r, anchor, target, cs),
        forall|k: int| 0 <= k < cs.len() ==> (#[trigger] cs[k]).spec_evidence().spec_product_lineage() is None,
        forall|k: int| 0 <= k < cs.len() ==> !(#[trigger] cs[k]).spec_evidence().spec_engine_continuity(),
        0 <= i < cs.len(),
        0 <= j < cs.len(),
        i != j,
        cs[i].spec_evidence().spec_structural() && cs[i].spec_evidence().spec_semantic(),
        cs[j].spec_evidence().spec_structural() && cs[j].spec_evidence().spec_semantic(),
    ensures
        r is Ambiguous,
{
    let n = cs.len() as int;
    lemma_count_none(cs, EvidenceChannel::ProductLineage, n);
    lemma_count_none(cs, EvidenceChannel::EngineContinuity, n);
    if i < j {
        lemma_count_at_least(cs, EvidenceChannel::StructuralAndSemantic, i, j, n);
    } else {
        lemma_count_at_least(cs, EvidenceChannel::StructuralAndSemantic, j, i, n);
    }
}

proof fn lemma_count_only<T>(cs: Seq<ReconciliationCandidate<T>>, ch: EvidenceChannel, i: int, n: int)
    requires
        0 <= i < cs.len(),
        0 <= n <= cs.len(),
        forall|k: int| 0 <= k < n && k != i ==> !shows(#[trigger] cs[k], ch),
    ensures
        count_showing(cs, ch, n) == if i < n && shows(cs[i], ch) { 1nat } else { 0nat },
    decreases n,
{
    if n > 0 {
        lemma_count_only(cs, ch, i, n - 1);
    }
}

proof fn lemma_first_from<T>(cs: Seq<ReconciliationCandidate<T>>, ch: EvidenceChannel, j: int, i: int)
    requires
        0 <= j <= i < cs.len(),
        shows(cs[i], ch),
        forall|k: int| j <= k < i ==> !shows(#[trigger] cs[k], ch),
    ensures
        first_showing(cs, ch, j) == i,
    decreases i - j,
{
    if j < i {
        lemma_first_from(cs, ch, j + 1, i);
    }
}

/// Two distinct candidates carrying product lineage make the outcome `Ambiguous`.
pub proof fn law_two_lineage_claims_are_ambiguous<T: Clone>(
    r: ReconciliationOutcome<T>,
    anchor: LogicalAnchorId,
    target: SessionAuthorityStamp,
    cs: Seq<ReconciliationCandidate<T>>,
    i: int,
    j: int,
)
    requires
        reconciled(r, anchor, target, cs),
        0 <= i < cs.len(),
        0 <= j < cs.len(),
        i != j,
        cs[i].spec_evidence().spec_product_lineage() is Some,
        cs[j].spec_evidence().spec_product_lineage() is Some,
    ensures
        r is Ambiguous,
{
    let n = cs.len() as int;
    if i < j {
        lemma_count_at_least(cs, EvidenceChannel::ProductLineage, i, j, n);
    } else {
        lemma_count_at_least(cs, EvidenceChannel::ProductLineage, j, i, n);
    }
}

/// The one candidate carrying product lineage, when no other candidate claims engine
/// continuity, is rebound on that lineage.
pub proof fn law_unique_lineage_rebinds<T: Clone>(
    r: ReconciliationOutcome<T>,
    anchor: LogicalAnchorId,
    target: SessionAuthorityStamp,
    cs: Seq<ReconciliationCandidate<T>>,
    i: int,
)
    requires
        reconciled(r, anchor, target, cs),
        0 <= i < cs.len(),
        cs[i].spec_evidence().spec_product_lineage() is Some,
        forall|k: int| 0 <= k < cs.len() && k != i ==> (#[trigger] cs[k]).spec_evidence().spec_product_lineage() is None,
        forall|k: int| 0 <= k < cs.len() && k != i ==> !(#[trigger] cs[k]).spec_evidence().spec_engine_continuity(),
    ensures
        r matches ReconciliationOutcome::Rebound { binding, basis } && {
            &&& binding.spec_anchor() == anchor
            &&& binding.spec_authority() == target
            &&& cloned(cs[i].spec_target(), binding.spec_target())
            &&& basis == ReconciliationBasis::ProductLineage(cs[i].spec_evidence().spec_product_lineage().unwrap())
        },
{
    let n = cs.len() as int;
    lemma_count_only(cs, EvidenceChannel::ProductLineage, i, n);
    lemma_count_only(cs, EvidenceChannel::EngineContinuity, i, n);
    lemma_first_from(cs, EvidenceChannel::ProductLineage, 0, i);
}

/// A product-lineage claim is contested by engine continuity on any other candidate: the
/// outcome is then `Ambiguous`.
pub proof fn law_lineage_contested_by_continuity_is_ambiguous<T: Clone>(
    r: ReconciliationOutcome<T>,
    anchor: LogicalAnchorId,
    target: SessionAuthorityStamp,
    cs: Seq<ReconciliationCandidate<T>>,
    i: int,
    j: int,
)
    requires
        reconciled(r, anchor, target, cs),
        0 <= i < cs.len(),
        0 <= j < cs.len(),
        i != j,
        cs[i].spec_evidence().spec_product_lineage() is Some,
        cs[j].spec_evidence().spec_engine_continuity(),
    ensures
        r is Ambiguous,
{
    let n = cs.len() as int;
    if exists|k: int| 0 <= k < cs.len() && k != i && (#[trigger] cs[k]).spec_evidence().spec_product_lineage() is Some {
        let k = choose|k: int| 0 <= k < cs.len() && k != i && (#[trigger] cs[k]).spec_evidence().spec_product_lineage() is Some;
        if i < k {
            lemma_count_at_least(cs, EvidenceChannel::ProductLineage, i, k, n);
        } else {
            lemma_count_at_least(cs, EvidenceChannel::ProductLineage, k, i, n);
        }
    } else {
        lemma_count_only(cs, EvidenceChannel::ProductLineage, i, n);
        lemma_first_from(cs, EvidenceChannel::ProductLineage, 0, i);
        if shows(cs[i], EvidenceChannel::EngineContinuity) {
            if i < j {
                lemma_count_at_least(cs, EvidenceChannel::EngineContinuity, i, j, n);
            } else {
                lemma_count_at_least(cs, EvidenceChannel::EngineContinuity, j, i, n);
            }
        } else {
            lemma_count_one(cs, EvidenceChannel::EngineContinuity, j, n);
        }
    }
}

/// Two distinct candidates claiming engine continuity, with no product lineage anywhere, make
/// the outcome `Ambiguous`.
pub proof fn law_two_continuity_claims_are_ambiguous<T: Clone>(
    r: ReconciliationOutcome<T>,
    anchor: LogicalAnchorId,
    target: SessionAuthorityStamp,
    cs: Seq<ReconciliationCandidate<T>>,
    i: int,
    j: int,
)
    requires
        reconciled(r, anchor, target, cs),
        forall|k: int| 0 <= k < cs.len() ==> (#[trigger] cs[k]).spec_evidence().spec_product_lineage() is None,
        0 <= i < cs.len(),
        0 <= j < cs.len(),
        i != j,
        cs[i].spec_evidence().spec_engine_continuity(),
        cs[j].spec_evidence().spec_engine_continuity(),
    ensures
        r is Ambiguous,
{
    let n = cs.len() as int;
    lemma_count_none(cs, EvidenceChannel::ProductLineage, n);
    if i < j {
        lemma_count_at_least(cs, EvidenceChannel::EngineContinuity, i, j, n);
    } else {
        lemma_count_at_least(cs, EvidenceChannel::EngineContinuity, j, i, n);
    }
}

/// With no product lineage anywhere, the one candidate claiming engine continuity is rebound on
/// that continuity.
pub proof fn law_unique_continuity_rebinds<T: Clone>(
    r: ReconciliationOutcome<T>,
    anchor: LogicalAnchorId,
    target: SessionAuthorityStamp,
    cs: Seq<ReconciliationCandidate<T>>,
    i: int,
)
    requires
        reconciled(r, anchor, target, cs),
        forall|k: int| 0 <= k < cs.len() ==> (#[trigger] cs[k]).spec_evidence().spec_product_lineage() is None,
        0 <= i < cs.len(),
        cs[i].spec_evidence().spec_engine_continuity(),
        forall|k: int| 0 <= k < cs.len() && k != i ==> !(#[trigger] cs[k]).spec_evidence().spec_engine_continuity(),
    ensures
        r matches ReconciliationOutcome::Rebound { binding, basis } && {
            &&& binding.spec_anchor() == anchor
            &&& binding.spec_authority() == target
            &&& cloned(cs[i].spec_target(), binding.spec_target())
            &&& basis == ReconciliationBasis::SameAuthorityEngineContinuity
        },
{
    let n = cs.len() as int;
    lemma_count_none(cs, EvidenceChannel::ProductLineage, n);
    lemma_count_only(cs, EvidenceChannel::EngineContinuity, i, n);
    lemma_first_from(cs, EvidenceChannel::EngineContinuity, 0, i);
}

/// With no product lineage or engine continuity anywhere, the one candidate showing both a
/// structural neighbourhood match and semantic equivalence is rebound on that unique match.
pub proof fn law_unique_structural_and_semantic_match_rebinds<T: Clone>(
    r: ReconciliationOutcome<T>,
    anchor: LogicalAnchorId,
    target: SessionAuthorityStamp,
    cs: Seq<ReconciliationCandidate<T>>,
    i: int,
)
    requires
        reconciled(r, anchor, target, cs),
        forall|k: int| 0 <= k < cs.len() ==> (#[trigger] cs[k]).spec_evidence().spec_product_lineage() is None,
        forall|k: int| 0 <= k < cs.len() ==> !(#[trigger] cs[k]).spec_evidence().spec_engine_continuity(),
        0 <= i < cs.len(),
        cs[i].spec_evidence().spec_structural() && cs[i].spec_evidence().spec_semantic(),
        forall|k: int| 0 <= k < cs.len() && k != i ==>
            !((#[trigger] cs[k]).spec_evidence().spec_structural() && cs[k].spec_evidence().spec_semantic()),
    ensures
        r matches ReconciliationOutcome::Rebound { binding, basis } && {
            &&& binding.spec_anchor() == anchor
            &&& binding.spec_authority() == target
            &&& cloned(cs[i].spec_target(), binding.spec_target())
            &&& basis == ReconciliationBasis::UniqueStructuralAndSemanticMatch
        },
{
    let n = cs.len() as int;
    lemma_count_none(cs, EvidenceChannel::ProductLineage, n);
    lemma_count_none(cs, EvidenceChannel::EngineContinuity, n);
    lemma_count_only(cs, EvidenceChannel::StructuralAndSemantic, i, n);
    lemma_first_from(cs, EvidenceChannel::StructuralAndSemantic, 0, i);
}

/// With no product lineage, engine continuity or candidate showing both structural and
/// semantic evidence, two distinct candidates each showing one of them make the outcome
/// `Ambiguous`; when at most one candidate shows either, it is `Unresolved`.
pub proof fn law_weak_evidence_is_never_rebound<T: Clone>(
    r: ReconciliationOutcome<T>,
    anchor: LogicalAnchorId,
    target: SessionAuthorityStamp,
    cs: Seq<ReconciliationCandidate<T>>,
)
    requires
        reconciled(r, anchor, target, cs),
        forall|k: int| 0 <= k < cs.len() ==> (#[trigger] cs[k]).spec_evidence().spec_product_lineage() is None,
        forall|k: int| 0 <= k < cs.len() ==> !(#[trigger] cs[k]).spec_evidence().spec_engine_continuity(),
        forall|k: int| 0 <= k < cs.len() ==>
            !((#[trigger] cs[k]).spec_evidence().spec_structural() && cs[k].spec_evidence().spec_semantic()),
    ensures
        !(r is Rebound),
        (exists|i: int, j: int| 0 <= i < cs.len() && 0 <= j < cs.len() && i != j
            && ((#[trigger] cs[i]).spec_evidence().spec_structural() || cs[i].spec_evidence().spec_semantic())
            && ((#[trigger] cs[j]).spec_evidence().spec_structural() || cs[j].spec_evidence().spec_semantic()))
            ==> r is Ambiguous,
        (forall|i: int, j: int| 0 <= i < cs.len() && 0 <= j < cs.len() && i != j
            && ((#[trigger] cs[i]).spec_evidence().spec_structural() || cs[i].spec_evidence().spec_semantic())
            ==> !((#[trigger] cs[j]).spec_evidence().spec_structural() || cs[j].spec_evidence().spec_semantic()))
            ==> r is Unresolved,
{
    let n = cs.len() as int;
    lemma_count_none(cs, EvidenceChannel::ProductLineage, n);
    lemma_count_none(cs, EvidenceChannel::EngineContinuity, n);
    lemma_count_none(cs, EvidenceChannel::StructuralAndSemantic, n);
    if exists|i: int, j: int| 0 <= i < cs.len() && 0 <= j < cs.len() && i != j
        && ((#[trigger] cs[i]).spec_evidence().spec_structural() || cs[i].spec_evidence().spec_semantic())
        && ((#[trigger] cs[j]).spec_evidence().spec_structural() || cs[j].spec_evidence().spec_semantic()) {
        let (i, j) = choose|i: int, j: int| 0 <= i < cs.len() && 0 <= j < cs.len() && i != j
            && ((#[trigger] cs[i]).spec_evidence().spec_structural() || cs[i].spec_evidence().spec_semantic())
            && ((#[trigger] cs[j]).spec_evidence().spec_structural() || cs[j].spec_evidence().spec_semantic());
        if i < j {
            lemma_count_at_least(cs, EvidenceChannel::StructuralOrSemantic, i, j, n);
        } else {
            lemma_count_at_least(cs, EvidenceChannel::StructuralOrSemantic, j, i, n);
        }
    }
    if forall|i: int, j: int| 0 <= i < cs.len() && 0 <= j < cs.len() && i != j
        && ((#[trigger] cs[i]).spec_evidence().spec_structural() || cs[i].spec_evidence().spec_semantic())
        ==> !((#[trigger] cs[j]).spec_evidence().spec_structural() || cs[j].spec_evidence().spec_semantic()) {
        if exists|i: int| 0 <= i < cs.len()
            && ((#[trigger] cs[i]).spec_evidence().spec_structural() || cs[i].spec_evidence().spec_semantic()) {
            let i = choose|i: int| 0 <= i < cs.len()
                && ((#[trigger] cs[i]).spec_evidence().spec_structural() || cs[i].spec_evidence().spec_semantic());
            assert forall|k: int| 0 <= k < n && k != i implies !shows(#[trigger] cs[k], EvidenceChannel::StructuralOrSemantic) by {
                assert(cs[i].spec_evidence().spec_structural() || cs[i].spec_evidence().spec_semantic());
            }
            lemma_count_only(cs, EvidenceChannel::StructuralOrSemantic, i, n);
        } else {
            lemma_count_none(cs, EvidenceChannel::StructuralOrSemantic, n);
        }
    }
}

/// Exec mirror of `shows` for one candidate.
fn shows_exec<T>(c: &ReconciliationCandidate<T>, ch: &EvidenceChannel) -> (b: bool)
    ensures
        b == shows(*c, *ch),
{
    let e = c.evidence();
    match ch {
        EvidenceChannel::ProductLineage => e.product_lineage().is_some(),
        EvidenceChannel::EngineContinuity => e.same_authority_engine_continuity(),
        EvidenceChannel::StructuralAndSemantic => e.structural_neighbourhood_match() && e.semantic_equivalence(),
        EvidenceChannel::StructuralOrSemantic => e.structural_neighbourhood_match() || e.semantic_equivalence(),
    }
}

/// Counts candidates on a channel and finds the first one.
fn count_channel<T>(candidates: &[ReconciliationCandidate<T>], ch: EvidenceChannel) -> (r: (usize, usize))
    ensures
        r.0 == count_showing(candidates@, ch, candidates@.len() as int),
        r.1 == first_showing(candidates@, ch, 0),
        r.0 > 0 ==> r.1 < candidates@.len() && shows(candidates@[r.1 as int], ch),
{
    let n = candidates.len();
    let mut count: usize = 0;
    let mut first: usize = n;
    let mut i: usize = 0;
    while i < n
        invariant
            n == candidates@.len(),
            0 <= i <= n,
            count == count_showing(candidates@, ch, i as int),
            count <= i,
            count == 0 ==> first == n && first_showing(candidates@, ch, 0) == first_showing(candidates@, ch, i as int),
            count > 0 ==> first < n && first == first_showing(candidates@, ch, 0) && shows(candidates@[first as int], ch),
        decreases n - i,
    {
        proof {
            lemma_count_step(candidates@, ch, i as int);
        }
        if shows_exec(&candidates[i], &ch) {
            if count == 0 {
                first = i;
            }
            count = count + 1;
        }
        i = i + 1;
    }
    proof {
        if count == 0 {
            assert(first_showing(candidates@, ch, n as int) == n);
        }
    }
    (count, first)
}

/// Reconciles one durable anchor into one current authority snapshot.
///
/// The decision is lexicographic and conservative rather than score-based (see `reconciled`).
pub fn reconcile_anchor<T: Clone>(
    anchor: LogicalAnchorId,
    target_authority: SessionAuthorityStamp,
    candidates: &[ReconciliationCandidate<T>],
) -> (r: Result<ReconciliationOutcome<T>, ReconciliationError>)
    ensures
        ({
            let cs = candidates@;
            let m = first_mismatch(cs, target_authority, 0);
            if m < cs.len() {
                r == Err::<ReconciliationOutcome<T>, ReconciliationError>(ReconciliationError::CandidateAuthorityMismatch {
                    expected: target_authority,
                    actual: cs[m].spec_authority(),
                })
            } else {
                r matches Ok(outcome) && reconciled(outcome, anchor, target_authority, cs)
            }
        }),
{
    let n = candidates.len();
    let mut i: usize = 0;
    while i < n
        invariant
            n == candidates@.len(),
            0 <= i <= n,
            forall|j: int| 0 <= j < i ==> (#[trigger] candidates@[j]).spec_authority() == target_authority,
        decreases n - i,
    {
        let actual = candidates[i].authority();
        if actual != target_authority {
            proof {
                lemma_first_mismatch_skip(candidates@, target_authority, i as int);
            }
            return Err(ReconciliationError::CandidateAuthorityMismatch { expected: target_authority, actual });
        }
        i = i + 1;
    }
    proof {
        lemma_first_mismatch_skip(candidates@, target_authority, n as int);
    }
    let (lineage, lineage_first) = count_channel(candidates, EvidenceChannel::ProductLineage);
    let (engine, engine_first) = count_channel(candidates, EvidenceChannel::EngineContinuity);
    if lineage > 1 {
        return Ok(ReconciliationOutcome::Ambiguous);
    }
    if lineage == 1 {
        let candidate = &candidates[lineage_first];
        let own_engine: usize = if candidate.evidence().same_authority_engine_continuity() { 1 } else { 0 };
        if engine > own_engine {
            return Ok(ReconciliationOutcome::Ambiguous);
        }
        let operation = candidate.evidence().product_lineage().unwrap();
        let target = candidate.target().clone();
        return Ok(ReconciliationOutcome::Rebound {
            binding: LiveAnchorBinding::new(anchor, target_authority, target),
            basis: ReconciliationBasis::ProductLineage(operation),
        });
    }
    if engine > 1 {
        return Ok(ReconciliationOutcome::Ambiguous);
    }
    if engine == 1 {
        let target = candidates[engine_first].target().clone();
        return Ok(ReconciliationOutcome::Rebound {
            binding: LiveAnchorBinding::new(anchor, target_authority, target),
            basis: ReconciliationBasis::SameAuthorityEngineContinuity,
        });
    }
    let (both, both_first) = count_channel(candidates, EvidenceChannel::StructuralAndSemantic);
    if both > 1 {
        return Ok(ReconciliationOutcome::Ambiguous);
    }
    if both == 1 {
        let target = candidates[both_first].target().clone();
        return Ok(ReconciliationOutcome::Rebound {
            binding: LiveAnchorBinding::new(anchor, target_authority, target),
            basis: ReconciliationBasis::UniqueStructuralAndSemanticMatch,
        });
    }
    let (weak, _) = count_channel(candidates, EvidenceChannel::StructuralOrSemantic);
    if weak > 1 {
        Ok(ReconciliationOutcome::Ambiguous)
    } else {
        Ok(ReconciliationOutcome::Unresolved)
    }
}

/// The diagnostic text of an anchor allocation error.
pub open spec fn anchor_allocation_error_text(e: AnchorAllocationError) -> Seq<char> {
    match e {
        AnchorAllocationError::SequenceExhausted => "logical anchor sequence exhausted"@,
    }
}

impl AnchorAllocationError {
    /// The diagnostic text of the error.
    pub fn message(&self) -> (m: String)
        ensures
            m@ == anchor_allocation_error_text(*self),
    {
        let mut m = String::new();
        match *self {
            AnchorAllocationError::SequenceExhausted => {
                push_text(&mut m, "logical anchor sequence exhausted");
            },
        }
        proof {
            assert(m@ =~= anchor_allocation_error_text(*self));
        }
        m
    }
}

/// The diagnostic text of refused reconciliation evidence.
pub open spec fn evidence_error_text(e: ReconciliationEvidenceError) -> Seq<char> {
    match e {
        ReconciliationEvidenceError::EngineContinuityCrossesAuthority { source, candidate } => "engine-object continuity cannot cross authority generations "@ + decimal(source.spec_get() as nat) + " -> "@ + decimal(candidate.spec_get() as nat),
    }
}

impl ReconciliationEvidenceError {
    /// The diagnostic text of the error.
    pub fn message(&self) -> (m: String)
        ensures
            m@ == evidence_error_text(*self),
    {
        let mut m = String::new();
        match *self {
            ReconciliationEvidenceError::EngineContinuityCrossesAuthority { source, candidate } => {
                push_text(&mut m, "engine-object continuity cannot cross authority generations ");
                push_decimal(&mut m, source.get());
                push_text(&mut m, " -> ");
                push_decimal(&mut m, candidate.get());
            },
        }
        proof {
            assert(m@ =~= evidence_error_text(*self));
        }
        m
    }
}

/// The diagnostic text of a reconciliation error.
pub open spec fn reconciliation_error_text(e: ReconciliationError) -> Seq<char> {
    match e {
        ReconciliationError::CandidateAuthorityMismatch { expected, actual } => "reconciliation candidate authority "@ + "AuthorityGeneration("@ + decimal(actual.spec_generation().spec_get() as nat) + ")/"@ + decimal(actual.spec_revision().0 as nat) + " does not match target "@ + "AuthorityGeneration("@ + decimal(expected.spec_generation().spec_get() as nat) + ")/"@ + decimal(expected.spec_revision().0 as nat),
    }
}

impl ReconciliationError {
    /// The diagnostic text of the error.
    pub fn message(&self) -> (m: String)
        ensures
            m@ == reconciliation_error_text(*self),
    {
        let mut m = String::new();
        match *self {
            ReconciliationError::CandidateAuthorityMismatch { expected, actual } => {
                push_text(&mut m, "reconciliation candidate authority ");
                push_text(&mut m, "AuthorityGeneration(");
                push_decimal(&mut m, actual.authority_generation().get());
                push_text(&mut m, ")/");
                push_decimal(&mut m, actual.revision().0);
                push_text(&mut m, " does not match target ");
                push_text(&mut m, "AuthorityGeneration(");
                push_decimal(&mut m, expected.authority_generation().get());
                push_text(&mut m, ")/");
                push_decimal(&mut m, expected.revision().0);
            },
        }
        proof {
            assert(m@ =~= reconciliation_error_text(*self));
        }
        m
    }
}

} // verus!
