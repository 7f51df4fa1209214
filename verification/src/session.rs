//! Authority- and revision-aware orchestration around a replaceable document engine.

use vstd::prelude::*;
use crate::engine::{transaction_result, DocumentEngine, EngineError, SemanticObservation};
use crate::protocol::{DocumentRevision, DocumentTransaction};

use crate::text::{decimal, push_decimal, push_text, utf8};

verus! {

/// One application-owned incarnation of the authoritative document binding.
#[derive(Clone, Copy, Debug, Eq, Hash, Ord, PartialEq, PartialOrd, Structural)]
pub struct AuthorityGeneration(u64);

impl AuthorityGeneration {
    /// The numeric generation.
    pub closed spec fn spec_get(self) -> u64 {
        self.0
    }

    pub fn get(self) -> (v: u64)
        ensures
            v == self.spec_get(),
    {
        self.0
    }

    /// Two generations are equal exactly when their numbers are.
    pub proof fn lemma_eq(a: AuthorityGeneration, b: AuthorityGeneration)
        ensures
            (a == b) <==> (a.spec_get() == b.spec_get()),
    {
    }
}

/// Number of transactions this session has accepted so far; the sequence of one accepted
/// transaction is product-owned audit evidence.
#[derive(Clone, Copy, Debug, Eq, Hash, Ord, PartialEq, PartialOrd, Structural)]
pub struct AcceptedOperationSequence(u64);

impl AcceptedOperationSequence {
    pub closed spec fn spec_get(self) -> u64 {
        self.0
    }

    pub fn get(self) -> (v: u64)
        ensures
            v == self.spec_get(),
    {
        self.0
    }
}

/// The exact authority generation and revision a live value belongs to.
#[derive(Clone, Copy, Debug, Eq, Hash, Ord, PartialEq, PartialOrd, Structural)]
pub struct SessionAuthorityStamp {
    authority_generation: AuthorityGeneration,
    revision: DocumentRevision,
}

impl SessionAuthorityStamp {
    pub closed spec fn spec_generation(self) -> AuthorityGeneration {
        self.authority_generation
    }

    pub closed spec fn spec_revision(self) -> DocumentRevision {
        self.revision
    }

    pub fn authority_generation(self) -> (g: AuthorityGeneration)
        ensures
            g == self.spec_generation(),
    {
        self.authority_generation
    }

    pub fn revision(self) -> (r: DocumentRevision)
        ensures
            r == self.spec_revision(),
    {
        self.revision
    }

    /// Two stamps are equal exactly when generation and revision are.
    pub proof fn lemma_eq(a: SessionAuthorityStamp, b: SessionAuthorityStamp)
        ensures
            (a == b) <==> (a.spec_generation() == b.spec_generation() && a.spec_revision() == b.spec_revision()),
    {
    }
}

/// Semantic data scoped to one exact session authority generation and document revision.
#[derive(Clone, Debug, Eq, PartialEq)]
pub struct SessionObservation<T> {
    authority_generation: AuthorityGeneration,
    engine_observation: SemanticObservation<T>,
}

impl<T> SessionObservation<T> {
    pub closed spec fn spec_generation(&self) -> AuthorityGeneration {
        self.authority_generation
    }

    pub closed spec fn spec_revision(&self) -> DocumentRevision {
        self.engine_observation.spec_revision()
    }

    pub closed spec fn spec_value(&self) -> T {
        self.engine_observation.spec_value()
    }

    fn new(authority_generation: AuthorityGeneration, engine_observation: SemanticObservation<T>) -> (r: Self)
        ensures
            r.spec_generation() == authority_generation,
            r.spec_revision() == engine_observation.spec_revision(),
            r.spec_value() == engine_observation.spec_value(),
    {
        SessionObservation { authority_generation, engine_observation }
    }

    pub fn authority_generation(&self) -> (g: AuthorityGeneration)
        ensures
            g == self.spec_generation(),
    {
        self.authority_generation
    }

    pub fn revision(&self) -> (r: DocumentRevision)
        ensures
            r == self.spec_revision(),
    {
        self.engine_observation.revision()
    }

    pub fn value(&self) -> (r: &T)
        ensures
            *r == self.spec_value(),
    {
        self.engine_observation.value()
    }

    pub fn into_value(self) -> (r: T)
        ensures
            r == self.spec_value(),
    {
        self.engine_observation.into_value()
    }

    /// Transforms the value while preserving authority and revision provenance.
    pub fn map<U, F: FnOnce(T) -> U>(self, map: F) -> (r: SessionObservation<U>)
        requires
            map.requires((self.spec_value(),)),
        ensures
            r.spec_generation() == self.spec_generation(),
            r.spec_revision() == self.spec_revision(),
            map.ensures((self.spec_value(),), r.spec_value()),
    {
        let generation = self.authority_generation;
        SessionObservation::new(generation, self.engine_observation.map(map))
    }
}

/// Why a previously produced session observation cannot be consumed as current state.
#[derive(Clone, Copy, Debug, Eq, PartialEq, Structural)]
pub enum ObservationFreshnessError {
    NoOpenDocument,
    AuthorityChanged { observed: AuthorityGeneration, current: AuthorityGeneration },
    Stale { observed: DocumentRevision, current: DocumentRevision },
}

/// Accepted transaction: engine revisions plus the session's sequence for it.
#[derive(Clone, Copy, Debug, Eq, PartialEq, Structural)]
pub struct SessionTransactionApplied {
    previous_revision: DocumentRevision,
    new_revision: DocumentRevision,
    sequence: AcceptedOperationSequence,
}

impl SessionTransactionApplied {
    pub closed spec fn spec_previous_revision(self) -> DocumentRevision {
        self.previous_revision
    }

    pub closed spec fn spec_new_revision(self) -> DocumentRevision {
        self.new_revision
    }

    pub fn previous_revision(&self) -> (r: DocumentRevision)
        ensures
            r == self.spec_previous_revision(),
    {
        self.previous_revision
    }

    pub fn new_revision(&self) -> (r: DocumentRevision)
        ensures
            r == self.spec_new_revision(),
    {
        self.new_revision
    }

    pub closed spec fn spec_sequence(self) -> AcceptedOperationSequence {
        self.sequence
    }

    pub fn sequence(&self) -> (s: AcceptedOperationSequence)
        ensures
            s == self.spec_sequence(),
    {
        self.sequence
    }
}

/// Semantic text retained from one current observation, sufficient to recover a document.
#[derive(Clone, Debug, Eq, PartialEq)]
pub struct RecoveryCheckpoint {
    text: String,
}

impl RecoveryCheckpoint {
    pub closed spec fn spec_text(&self) -> Seq<char> {
        self.text@
    }

    pub fn text(&self) -> (t: &str)
        ensures
            t@ == self.spec_text(),
    {
        self.text.as_str()
    }
}

/// The error a semantic read reports when the engine's revision is not the session's.
pub open spec fn revision_disagreement_text(engine_revision: u64, session_revision: u64) -> Seq<char> {
    "engine semantic revision "@ + decimal(engine_revision as nat) + " disagrees with session revision "@
        + decimal(session_revision as nat)
}

/// Renders the revision-disagreement diagnostic.
fn revision_disagreement_message(engine_revision: DocumentRevision, session_revision: DocumentRevision) -> (m: String)
    ensures
        m@ == revision_disagreement_text(engine_revision.0, session_revision.0),
{
    let mut m = String::new();
    push_text(&mut m, "engine semantic revision ");
    push_decimal(&mut m, engine_revision.0);
    push_text(&mut m, " disagrees with session revision ");
    push_decimal(&mut m, session_revision.0);
    m
}

/// The error a semantic read reports when the session holds no authoritative revision.
pub open spec fn no_revision_text() -> Seq<char> {
    "engine returned semantic state while session had no authoritative revision"@
}

/// The error an open reports when authority generations are exhausted.
pub open spec fn generation_exhausted_text() -> Seq<char> {
    "document authority generation exhausted"@
}

/// The error a transaction reports when accepted-operation sequences are exhausted.
pub open spec fn sequence_exhausted_text() -> Seq<char> {
    "accepted operation sequence exhausted"@
}

/// Scopes an engine observation to the session's authority, or reports why it cannot be.
pub fn scope_observation<T>(
    generation: AuthorityGeneration,
    current: Option<DocumentRevision>,
    observation: SemanticObservation<T>,
) -> (r: Result<SessionObservation<T>, EngineError>)
    ensures
        match current {
            None => r matches Err(EngineError::Internal(m)) && m@ == no_revision_text(),
            Some(c) => if observation.spec_revision() == c {
                r matches Ok(o) && o.spec_generation() == generation && o.spec_revision() == c
                    && o.spec_value() == observation.spec_value()
            } else {
                r matches Err(EngineError::Internal(m))
                    && m@ == revision_disagreement_text(observation.spec_revision().0, c.0)
            },
        },
{
    match current {
        None => {
            let m = "engine returned semantic state while session had no authoritative revision".to_owned();
            proof {
                reveal_strlit("engine returned semantic state while session had no authoritative revision");
            }
            Err(EngineError::Internal(m))
        },
        Some(c) => {
            let observed = observation.revision();
            if observed != c {
                Err(EngineError::Internal(revision_disagreement_message(observed, c)))
            } else {
                Ok(SessionObservation::new(generation, observation))
            }
        },
    }
}

pub struct DocumentSession<E> {
    engine: E,
    authority_generation: AuthorityGeneration,
    revision: Option<DocumentRevision>,
    accepted_operations: u64,
    submitted: Ghost<Seq<DocumentTransaction>>,
}

impl<E> DocumentSession<E> {
    /// Current authority generation (the count of successful opens).
    pub closed spec fn spec_generation(&self) -> AuthorityGeneration {
        self.authority_generation
    }

    /// Revision of the bound authority, if a document is open.
    pub closed spec fn spec_revision(&self) -> Option<DocumentRevision> {
        self.revision
    }

    /// Number of transactions accepted by this session.
    pub closed spec fn spec_accepted(&self) -> u64 {
        self.accepted_operations
    }

    /// The engine the session drives.
    pub closed spec fn spec_engine(&self) -> E {
        self.engine
    }

    /// Every transaction the session has handed to its engine, in order.
    pub closed spec fn spec_submitted(&self) -> Seq<DocumentTransaction> {
        self.submitted@
    }
}

impl<E: DocumentEngine> DocumentSession<E> {
    pub fn new(engine: E) -> (s: Self)
        ensures
            s.spec_generation().spec_get() == 0,
            s.spec_revision() is None,
            s.spec_accepted() == 0,
            s.spec_engine() == engine,
            s.spec_submitted().len() == 0,
    {
        DocumentSession {
            engine,
            authority_generation: AuthorityGeneration(0),
            revision: None,
            accepted_operations: 0,
            submitted: Ghost(Seq::empty()),
        }
    }

    /// Opens a text document as a new authority generation.
    ///
    /// The next generation is reserved before the engine is asked to replace authority, so
    /// exhaustion leaves the engine untouched and an engine failure leaves the session unchanged.
    pub fn open_text_fixture(&mut self, text: String) -> (r: Result<DocumentRevision, EngineError>)
        ensures
            final(self).spec_accepted() == old(self).spec_accepted(),
            old(self).spec_generation().spec_get() == u64::MAX ==> {
                &&& r matches Err(EngineError::Internal(m)) && m@ == generation_exhausted_text()
                &&& *final(self) == *old(self)
            },
            old(self).spec_generation().spec_get() < u64::MAX ==> match r {
                Ok(rev) => final(self).spec_generation().spec_get() == old(self).spec_generation().spec_get() + 1
                    && final(self).spec_revision() == Some(rev),
                Err(_) => final(self).spec_generation() == old(self).spec_generation()
                    && final(self).spec_revision() == old(self).spec_revision(),
            },
            r matches Ok(rev) ==> final(self).spec_engine().spec_state() == Some((rev, text@)),
            final(self).spec_submitted() == old(self).spec_submitted(),
    {
        if self.authority_generation.0 == u64::MAX {
            let m = "document authority generation exhausted".to_owned();
            proof {
                reveal_strlit("document authority generation exhausted");
            }
            return Err(EngineError::Internal(m));
        }
        let next_authority = AuthorityGeneration(self.authority_generation.0 + 1);
        match self.engine.open_text_fixture(text) {
            Err(e) => Err(e),
            Ok(revision) => {
                self.authority_generation = next_authority;
                self.revision = Some(revision);
                Ok(revision)
            },
        }
    }

    pub fn known_revision(&self) -> (r: Option<DocumentRevision>)
        ensures
            r == self.spec_revision(),
    {
        self.revision
    }

    pub fn known_authority_generation(&self) -> (r: Option<AuthorityGeneration>)
        ensures
            r == (if self.spec_revision() is Some { Some(self.spec_generation()) } else { None }),
    {
        if self.revision.is_some() {
            Some(self.authority_generation)
        } else {
            None
        }
    }

    /// The authority stamp of the currently bound document, if one is open.
    pub fn current_authority_stamp(&self) -> (r: Option<SessionAuthorityStamp>)
        ensures
            match self.spec_revision() {
                None => r is None,
                Some(rev) => r matches Some(s) && s.spec_generation() == self.spec_generation()
                    && s.spec_revision() == rev,
            },
    {
        match self.revision {
            None => None,
            Some(revision) => Some(SessionAuthorityStamp { authority_generation: self.authority_generation, revision }),
        }
    }

    /// Reads semantic text and scopes it to this exact session authority incarnation.
    pub fn semantic_text(&self) -> (r: Result<SessionObservation<String>, EngineError>)
        ensures
            r matches Ok(o) ==> self.spec_revision() == Some(o.spec_revision())
                && o.spec_generation() == self.spec_generation()
                && self.spec_engine().spec_state() == Some((o.spec_revision(), o.spec_value()@)),
            self.spec_revision() is None ==> r is Err,
    {
        match self.engine.semantic_text() {
            Err(e) => Err(e),
            Ok(observation) => scope_observation(self.authority_generation, self.revision, observation),
        }
    }

    /// Rejects an observation from another authority generation or an older revision.
    ///
    /// Authority is checked before revision so an old R0 cannot become current again merely
    /// because a replacement authority also starts at R0.
    pub fn require_current<T>(&self, observation: &SessionObservation<T>) -> (r: Result<(), ObservationFreshnessError>)
        ensures
            match self.spec_revision() {
                None => r == Err::<(), ObservationFreshnessError>(ObservationFreshnessError::NoOpenDocument),
                Some(current) => if observation.spec_generation() != self.spec_generation() {
                    r == Err::<(), ObservationFreshnessError>(ObservationFreshnessError::AuthorityChanged {
                        observed: observation.spec_generation(),
                        current: self.spec_generation(),
                    })
                } else if observation.spec_revision() != current {
                    r == Err::<(), ObservationFreshnessError>(ObservationFreshnessError::Stale {
                        observed: observation.spec_revision(),
                        current,
                    })
                } else {
                    r is Ok
                },
            },
    {
        let current_revision = match self.revision {
            None => {
                return Err(ObservationFreshnessError::NoOpenDocument);
            },
            Some(r) => r,
        };
        if observation.authority_generation() != self.authority_generation {
            return Err(ObservationFreshnessError::AuthorityChanged {
                observed: observation.authority_generation(),
                current: self.authority_generation,
            });
        }
        if observation.revision() != current_revision {
            return Err(ObservationFreshnessError::Stale { observed: observation.revision(), current: current_revision });
        }
        Ok(())
    }

    /// Applies one transaction through the engine and records the revision it reached.
    pub fn apply_transaction(&mut self, transaction: DocumentTransaction) -> (r: Result<SessionTransactionApplied, EngineError>)
        ensures
            final(self).spec_generation() == old(self).spec_generation(),
            old(self).spec_accepted() == u64::MAX ==> {
                &&& r matches Err(EngineError::Internal(m)) && m@ == sequence_exhausted_text()
                &&& *final(self) == *old(self)
            },
            old(self).spec_accepted() < u64::MAX ==> match r {
                Ok(applied) => final(self).spec_revision() == Some(applied.spec_new_revision())
                    && final(self).spec_accepted() == old(self).spec_accepted() + 1
                    && applied.spec_sequence().spec_get() == final(self).spec_accepted(),
                Err(_) => final(self).spec_revision() == old(self).spec_revision()
                    && final(self).spec_accepted() == old(self).spec_accepted(),
            },
            r matches Ok(applied) ==> (old(self).spec_engine().spec_state() matches Some(before)
                && final(self).spec_engine().spec_state() matches Some(after)
                && applied.spec_previous_revision() == before.0 && transaction.expected_revision == before.0
                && applied.spec_new_revision() == after.0
                && utf8(after.1) == transaction_result(before.1, transaction.edits@)),
            r is Err ==> final(self).spec_engine().spec_state() == old(self).spec_engine().spec_state(),
            old(self).spec_accepted() < u64::MAX ==> final(self).spec_submitted() == old(self).spec_submitted().push(transaction),
            old(self).spec_accepted() == u64::MAX ==> final(self).spec_submitted() == old(self).spec_submitted(),
    {
        if self.accepted_operations == u64::MAX {
            let m = "accepted operation sequence exhausted".to_owned();
            proof {
                reveal_strlit("accepted operation sequence exhausted");
            }
            return Err(EngineError::Internal(m));
        }
        self.submitted = Ghost(self.submitted@.push(transaction));
        match self.engine.apply_transaction(transaction) {
            Err(e) => Err(e),
            Ok(applied) => {
                let sequence = self.accepted_operations + 1;
                self.accepted_operations = sequence;
                self.revision = Some(applied.new_revision);
                Ok(SessionTransactionApplied {
                    previous_revision: applied.previous_revision,
                    new_revision: applied.new_revision,
                    sequence: AcceptedOperationSequence(sequence),
                })
            },
        }
    }

    /// Captures the text of a current observation as a recovery checkpoint.
    pub fn capture_recovery_checkpoint(&self, observation: &SessionObservation<String>) -> (r: Result<RecoveryCheckpoint, ObservationFreshnessError>)
        ensures
            match r {
                Ok(c) => c.spec_text() == observation.spec_value()@
                    && self.spec_revision() == Some(observation.spec_revision())
                    && observation.spec_generation() == self.spec_generation(),
                Err(_) => !(self.spec_revision() == Some(observation.spec_revision())
                    && observation.spec_generation() == self.spec_generation()),
            },
    {
        match self.require_current(observation) {
            Err(e) => Err(e),
            Ok(()) => {
                let text = observation.value().clone();
                Ok(RecoveryCheckpoint { text })
            },
        }
    }

    /// Replaces a lost engine; no document is bound until the next successful open.
    pub fn replace_engine_after_authority_loss(&mut self, engine: E)
        ensures
            final(self).spec_engine() == engine,
            final(self).spec_revision() is None,
            final(self).spec_generation() == old(self).spec_generation(),
            final(self).spec_accepted() == old(self).spec_accepted(),
            final(self).spec_submitted() == old(self).spec_submitted(),
    {
        self.engine = engine;
        self.revision = None;
    }

    /// Reopens the checkpoint text as a new authority generation.
    pub fn recover_text_fixture_from_checkpoint(&mut self, checkpoint: &RecoveryCheckpoint) -> (r: Result<DocumentRevision, EngineError>)
        ensures
            final(self).spec_accepted() == old(self).spec_accepted(),
            old(self).spec_generation().spec_get() < u64::MAX ==> match r {
                Ok(rev) => final(self).spec_generation().spec_get() == old(self).spec_generation().spec_get() + 1
                    && final(self).spec_revision() == Some(rev),
                Err(_) => final(self).spec_generation() == old(self).spec_generation()
                    && final(self).spec_revision() == old(self).spec_revision(),
            },
            old(self).spec_generation().spec_get() == u64::MAX ==> {
                &&& r matches Err(EngineError::Internal(m)) && m@ == generation_exhausted_text()
                &&& *final(self) == *old(self)
            },
            r matches Ok(rev) ==> final(self).spec_engine().spec_state() == Some((rev, checkpoint.spec_text())),
            final(self).spec_submitted() == old(self).spec_submitted(),
    {
        let text = checkpoint.text.clone();
        self.open_text_fixture(text)
    }
}

/// Law: once a session reopens a document, no observation from an earlier generation is
/// current, even when the replacement authority restarts at the same revision.
pub proof fn law_reopen_invalidates_old_observations<T>(
    before: AuthorityGeneration,
    after: AuthorityGeneration,
    observation: SessionObservation<T>,
)
    requires
        observation.spec_generation() == before,
        after.spec_get() == before.spec_get() + 1,
    ensures
        observation.spec_generation() != after,
{
}

/// The diagnostic text of a freshness error.
pub open spec fn freshness_error_text(e: ObservationFreshnessError) -> Seq<char> {
    match e {
        ObservationFreshnessError::NoOpenDocument => "no authoritative document is open"@,
        ObservationFreshnessError::AuthorityChanged { observed, current } => "semantic observation belongs to authority generation "@ + decimal(observed.spec_get() as nat) + ", current generation is "@ + decimal(current.spec_get() as nat),
        ObservationFreshnessError::Stale { observed, current } => "semantic observation is stale: observed revision "@ + decimal(observed.0 as nat) + ", current revision "@ + decimal(current.0 as nat),
    }
}

impl ObservationFreshnessError {
    /// The diagnostic text of the error.
    pub fn message(&self) -> (m: String)
        ensures
            m@ == freshness_error_text(*self),
    {
        let mut m = String::new();
        match *self {
            ObservationFreshnessError::NoOpenDocument => {
                push_text(&mut m, "no authoritative document is open");
            },
            ObservationFreshnessError::AuthorityChanged { observed, current } => {
                push_text(&mut m, "semantic observation belongs to authority generation ");
                push_decimal(&mut m, observed.0 as u64);
                push_text(&mut m, ", current generation is ");
                push_decimal(&mut m, current.0 as u64);
            },
            ObservationFreshnessError::Stale { observed, current } => {
                push_text(&mut m, "semantic observation is stale: observed revision ");
                push_decimal(&mut m, observed.0 as u64);
                push_text(&mut m, ", current revision ");
                push_decimal(&mut m, current.0 as u64);
            },
        }
        proof {
            assert(m@ =~= freshness_error_text(*self));
        }
        m
    }
}

} // verus!
