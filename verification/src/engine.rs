//! Engine abstraction independent of LibreOffice or any future native engine.

use vstd::prelude::*;
use crate::mock_engine::{apply_from_back, sort_by_start};
use crate::protocol::{
    DocumentRevision, DocumentTransaction, EngineCapabilities, ProtocolError, TextEdit, TransactionApplied,
};
use crate::text::utf8;

verus! {

#[derive(Debug)]
pub enum EngineError {
    Protocol(ProtocolError),
    NotOpen,
    Unsupported(&'static str),
    Internal(String),
}

impl From<ProtocolError> for EngineError {
    fn from(value: ProtocolError) -> (r: Self) {
        EngineError::Protocol(value)
    }
}

impl vstd::std_specs::convert::FromSpecImpl<ProtocolError> for EngineError {
    open spec fn obeys_from_spec() -> bool {
        true
    }

    open spec fn from_spec(v: ProtocolError) -> EngineError {
        EngineError::Protocol(v)
    }
}

/// Immutable semantic data observed from one exact authoritative document revision.
#[derive(Clone, Debug, Eq, PartialEq)]
pub struct SemanticObservation<T> {
    revision: DocumentRevision,
    value: T,
}

impl<T> SemanticObservation<T> {
    /// Revision at which the value was read.
    pub closed spec fn spec_revision(&self) -> DocumentRevision {
        self.revision
    }

    /// The observed value.
    pub closed spec fn spec_value(&self) -> T {
        self.value
    }

    pub fn new(revision: DocumentRevision, value: T) -> (r: Self)
        ensures
            r.spec_revision() == revision,
            r.spec_value() == value,
    {
        SemanticObservation { revision, value }
    }

    pub fn revision(&self) -> (r: DocumentRevision)
        ensures
            r == self.spec_revision(),
    {
        self.revision
    }

    pub fn value(&self) -> (r: &T)
        ensures
            *r == self.spec_value(),
    {
        &self.value
    }

    pub fn into_value(self) -> (r: T)
        ensures
            r == self.spec_value(),
    {
        self.value
    }

    /// Transforms the value while preserving the revision stamp.
    pub fn map<U, F: FnOnce(T) -> U>(self, map: F) -> (r: SemanticObservation<U>)
        requires
            map.requires((self.spec_value(),)),
        ensures
            r.spec_revision() == self.spec_revision(),
            map.ensures((self.spec_value(),), r.spec_value()),
    {
        let value = map(self.value);
        SemanticObservation { revision: self.revision, value }
    }
}

/// The UTF-8 bytes of `text` after a transaction's edits: sorted by start, applied from the
/// last to the first.
pub open spec fn transaction_result(text: Seq<char>, edits: Seq<TextEdit>) -> Seq<u8> {
    apply_from_back(utf8(text), sort_by_start(edits))
}

/// A replaceable document engine, implemented by the mock engine here and by real engine
/// adapters elsewhere.
///
/// An engine holds at most one open document: its revision and text (`spec_state`). An open
/// reports the revision of the text it bound; a read reports the open document as it stands;
/// an applied transaction starts from its expected revision and leaves the document's bytes as
/// its edits give them; a refused transaction leaves the document as it was. Whether a call
/// succeeds is the engine's.
pub trait DocumentEngine {
    /// The open document: revision and text. An implementation that does not describe its
    /// state holds no document as far as its callers know.
    open spec fn spec_state(&self) -> Option<(DocumentRevision, Seq<char>)> {
        None
    }

    fn capabilities(&self) -> EngineCapabilities;

    fn revision(&self) -> (r: Result<DocumentRevision, EngineError>)
        ensures
            r matches Ok(rev) ==> (self.spec_state() matches Some(st) && st.0 == rev);

    fn open_text_fixture(&mut self, text: String) -> (r: Result<DocumentRevision, EngineError>)
        ensures
            r matches Ok(rev) ==> final(self).spec_state() == Some((rev, text@));

    fn semantic_text(&self) -> (r: Result<SemanticObservation<String>, EngineError>)
        ensures
            r matches Ok(o) ==> self.spec_state() == Some((o.spec_revision(), o.spec_value()@));

    fn apply_transaction(&mut self, transaction: DocumentTransaction) -> (r: Result<TransactionApplied, EngineError>)
        ensures
            r matches Ok(a) ==> (old(self).spec_state() matches Some(before) && final(self).spec_state() matches Some(after)
                && a.previous_revision == before.0 && transaction.expected_revision == before.0 && a.new_revision == after.0
                && utf8(after.1) == transaction_result(before.1, transaction.edits@)),
            r is Err ==> final(self).spec_state() == old(self).spec_state();
}

} // verus!
