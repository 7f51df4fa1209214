//! UI-agnostic application orchestration.

use vstd::prelude::*;
use vstd::utf8::*;
use crate::engine::{transaction_result, DocumentEngine, EngineError};
use crate::mock_engine::{apply_from_back, insert_before_equal, sort_by_start, splice};
use crate::protocol::{DocumentRevision, DocumentTransaction, TextEdit, TextOffset};
use crate::session::{generation_exhausted_text, DocumentSession, SessionObservation};
use crate::text::{decimal, lemma_utf8_valid, push_decimal, push_text, str_is_boundary, str_len, utf8};

verus! {

/// UI-safe projection of the current authoritative document state.
#[derive(Clone, Debug, Eq, PartialEq)]
pub struct EditorSnapshot {
    authority_generation: u64,
    revision: u64,
    text: String,
}

impl EditorSnapshot {
    pub closed spec fn spec_generation(&self) -> u64 {
        self.authority_generation
    }

    pub closed spec fn spec_revision(&self) -> u64 {
        self.revision
    }

    pub closed spec fn spec_text(&self) -> Seq<char> {
        self.text@
    }

    fn from_observation(observation: SessionObservation<String>) -> (s: Self)
        ensures
            s.spec_generation() == observation.spec_generation().spec_get(),
            s.spec_revision() == observation.spec_revision().0,
            s.spec_text() == observation.spec_value()@,
    {
        let authority_generation = observation.authority_generation().get();
        let revision = observation.revision().get();
        let text = observation.into_value();
        EditorSnapshot { authority_generation, revision, text }
    }

    pub fn authority_generation(&self) -> (g: u64)
        ensures
            g == self.spec_generation(),
    {
        self.authority_generation
    }

    pub fn revision(&self) -> (r: u64)
        ensures
            r == self.spec_revision(),
    {
        self.revision
    }

    pub fn text(&self) -> (t: &str)
        ensures
            t@ == self.spec_text(),
    {
        self.text.as_str()
    }

    pub fn into_text(self) -> (t: String)
        ensures
            t@ == self.spec_text(),
    {
        self.text
    }

    /// The one-line status a shell shows for the snapshot: authority generation, revision and
    /// the text's length in bytes.
    pub fn status_text(&self) -> (t: String)
        ensures
            t@ == "Authority "@ + decimal(self.spec_generation() as nat) + " · Revision "@
                + decimal(self.spec_revision() as nat) + " · "@ + decimal(utf8(self.spec_text()).len()) + " bytes"@,
    {
        let mut t = String::new();
        push_text(&mut t, "Authority ");
        push_decimal(&mut t, self.authority_generation);
        push_text(&mut t, " · Revision ");
        push_decimal(&mut t, self.revision);
        push_text(&mut t, " · ");
        push_decimal(&mut t, str_len(self.text.as_str()) as u64);
        push_text(&mut t, " bytes");
        t
    }
}

/// `p` bytes start both texts identically and end on a character boundary of each.
pub open spec fn is_common_prefix(left: Seq<u8>, right: Seq<u8>, p: int) -> bool {
    &&& 0 <= p <= left.len()
    &&& p <= right.len()
    &&& is_char_boundary(left, p)
    &&& is_char_boundary(right, p)
    &&& left.subrange(0, p) == right.subrange(0, p)
}

/// `s` bytes end both texts identically and start on a character boundary of each.
pub open spec fn is_common_suffix(left: Seq<u8>, right: Seq<u8>, s: int) -> bool {
    &&& 0 <= s <= left.len()
    &&& s <= right.len()
    &&& is_char_boundary(left, left.len() - s)
    &&& is_char_boundary(right, right.len() - s)
    &&& left.subrange(left.len() - s, left.len() as int) == right.subrange(right.len() - s, right.len() as int)
}

/// Byte length of the longest common character prefix of two texts.
pub fn common_prefix_bytes(left: &str, right: &str) -> (p: usize)
    ensures
        is_common_prefix(utf8(left@), utf8(right@), p as int),
        forall|q: int| is_common_prefix(utf8(left@), utf8(right@), q) ==> q <= p,
{
    let ghost l = utf8(left@);
    let ghost r = utf8(right@);
    proof {
        lemma_utf8_valid(left@);
        lemma_utf8_valid(right@);
    }
    let lb = left.as_bytes();
    let rb = right.as_bytes();
    let ll = str_len(left);
    let rl = str_len(right);
    let mut k: usize = 0;
    while k < ll && k < rl && lb[k] == rb[k]
        invariant
            lb@ == l,
            rb@ == r,
            ll == l.len(),
            rl == r.len(),
            0 <= k <= ll,
            k <= rl,
            l.subrange(0, k as int) == r.subrange(0, k as int),
        decreases ll - k,
    {
        proof {
            assert(l.subrange(0, k + 1) =~= l.subrange(0, k as int).push(l[k as int]));
            assert(r.subrange(0, k + 1) =~= r.subrange(0, k as int).push(r[k as int]));
        }
        k = k + 1;
    }
    let ghost top = k;
    proof {
        assert forall|q: int| is_common_prefix(l, r, q) implies q <= top by {
            if q > top {
                assert(l.subrange(0, q)[top as int] == r.subrange(0, q)[top as int]);
            }
        }
    }
    proof {
        is_char_boundary_start_end_of_seq(l);
        is_char_boundary_start_end_of_seq(r);
    }
    loop
        invariant
            0 <= k <= top,
            top <= ll,
            top <= rl,
            ll == l.len(),
            rl == r.len(),
            valid_utf8(l),
            valid_utf8(r),
            l == utf8(left@),
            r == utf8(right@),
            is_char_boundary(l, 0),
            is_char_boundary(r, 0),
            l.subrange(0, top as int) == r.subrange(0, top as int),
            forall|q: int| is_common_prefix(l, r, q) ==> q <= k,
        ensures
            0 <= k <= top,
            is_char_boundary(l, k as int),
            is_char_boundary(r, k as int),
            forall|q: int| is_common_prefix(l, r, q) ==> q <= k,
        decreases k,
    {
        let bl = str_is_boundary(left, k);
        let br = str_is_boundary(right, k);
        if bl && br {
            break;
        }
        k = k - 1;
    }
    proof {
        assert(l.subrange(0, k as int) =~= l.subrange(0, top as int).subrange(0, k as int));
        assert(r.subrange(0, k as int) =~= r.subrange(0, top as int).subrange(0, k as int));
    }
    k
}

/// Byte length of the longest common character suffix of two texts.
pub fn common_suffix_bytes(left: &str, right: &str) -> (s: usize)
    ensures
        is_common_suffix(utf8(left@), utf8(right@), s as int),
        forall|q: int| is_common_suffix(utf8(left@), utf8(right@), q) ==> q <= s,
{
    let ghost l = utf8(left@);
    let ghost r = utf8(right@);
    proof {
        lemma_utf8_valid(left@);
        lemma_utf8_valid(right@);
    }
    let lb = left.as_bytes();
    let rb = right.as_bytes();
    let ll = str_len(left);
    let rl = str_len(right);
    let mut j: usize = 0;
    while j < ll && j < rl && lb[ll - 1 - j] == rb[rl - 1 - j]
        invariant
            lb@ == l,
            rb@ == r,
            ll == l.len(),
            rl == r.len(),
            0 <= j <= ll,
            j <= rl,
            l.subrange(ll - j, ll as int) == r.subrange(rl - j, rl as int),
        decreases ll - j,
    {
        proof {
            assert(l.subrange(ll - (j + 1), ll as int) =~= seq![l[ll - 1 - j]] + l.subrange(ll - j, ll as int));
            assert(r.subrange(rl - (j + 1), rl as int) =~= seq![r[rl - 1 - j]] + r.subrange(rl - j, rl as int));
        }
        j = j + 1;
    }
    let ghost top = j;
    proof {
        assert forall|q: int| is_common_suffix(l, r, q) implies q <= top by {
            if q > top {
                let ls = l.subrange(l.len() - q, l.len() as int);
                let rs = r.subrange(r.len() - q, r.len() as int);
                assert(ls[q - 1 - top] == l[ll - 1 - top]);
                assert(rs[q - 1 - top] == r[rl - 1 - top]);
            }
        }
    }
    proof {
        is_char_boundary_start_end_of_seq(l);
        is_char_boundary_start_end_of_seq(r);
    }
    loop
        invariant
            0 <= j <= top,
            top <= ll,
            top <= rl,
            ll == l.len(),
            rl == r.len(),
            valid_utf8(l),
            valid_utf8(r),
            l == utf8(left@),
            r == utf8(right@),
            is_char_boundary(l, ll as int),
            is_char_boundary(r, rl as int),
            l.subrange(ll - top, ll as int) == r.subrange(rl - top, rl as int),
            forall|q: int| is_common_suffix(l, r, q) ==> q <= j,
        ensures
            0 <= j <= top,
            is_char_boundary(l, ll - j),
            is_char_boundary(r, rl - j),
            forall|q: int| is_common_suffix(l, r, q) ==> q <= j,
        decreases j,
    {
        let bl = str_is_boundary(left, ll - j);
        let br = str_is_boundary(right, rl - j);
        if bl && br {
            break;
        }
        j = j - 1;
    }
    proof {
        let lt = l.subrange(ll - top, ll as int);
        let rt = r.subrange(rl - top, rl as int);
        assert(l.subrange(ll - j, ll as int) =~= lt.subrange(top - j, top as int));
        assert(r.subrange(rl - j, rl as int) =~= rt.subrange(top - j, top as int));
    }
    j
}

/// The smallest single UTF-8-safe window of `current` whose replacement yields `next`:
/// the longest common prefix, then the longest common suffix of what remains.
pub open spec fn window_spec(current: Seq<u8>, next: Seq<u8>, start: int, end: int, next_end: int) -> bool {
    &&& is_common_prefix(current, next, start)
    &&& forall|q: int| is_common_prefix(current, next, q) ==> q <= start
    &&& {
        let ct = current.subrange(start, current.len() as int);
        let nt = next.subrange(start, next.len() as int);
        let s = current.len() - end;
        &&& is_common_suffix(ct, nt, s)
        &&& forall|q: int| is_common_suffix(ct, nt, q) ==> q <= s
        &&& next_end == next.len() - s
    }
}

/// Where the replacement ends in `next`: the common suffix after `end` is shared.
pub open spec fn next_end_of(current: Seq<u8>, next: Seq<u8>, end: int) -> int {
    next.len() - (current.len() - end)
}

/// Computes the replacement window `(start, end, replacement)` turning `current` into `next`.
pub fn replacement_window<'a>(current: &str, next: &'a str) -> (w: (usize, usize, &'a str))
    ensures
        window_spec(utf8(current@), utf8(next@), w.0 as int, w.1 as int, next_end_of(utf8(current@), utf8(next@), w.1 as int)),
        utf8(w.2@) == utf8(next@).subrange(w.0 as int, next_end_of(utf8(current@), utf8(next@), w.1 as int)),
        w.0 <= w.1 <= utf8(current@).len(),
        is_char_boundary(utf8(current@), w.0 as int),
        is_char_boundary(utf8(current@), w.1 as int),
        utf8(current@).subrange(0, w.0 as int) + utf8(w.2@)
            + utf8(current@).subrange(w.1 as int, utf8(current@).len() as int) == utf8(next@),
{
    let ghost c = utf8(current@);
    let ghost n = utf8(next@);
    proof {
        lemma_utf8_valid(current@);
        lemma_utf8_valid(next@);
    }
    let prefix = common_prefix_bytes(current, next);
    let (_, current_tail) = current.split_at(prefix);
    let (_, next_tail) = next.split_at(prefix);
    let suffix = common_suffix_bytes(current_tail, next_tail);
    let current_len = str_len(current);
    let next_len = str_len(next);
    let current_end = current_len - suffix;
    let next_end = next_len - suffix;
    let ghost ct = c.subrange(prefix as int, c.len() as int);
    let ghost nt = n.subrange(prefix as int, n.len() as int);
    proof {
        lemma_window(c, n, prefix as int, suffix as int);
    }
    let (_, after_prefix) = next.split_at(prefix);
    let (replacement, _) = after_prefix.split_at(next_end - prefix);
    proof {
        assert(utf8(replacement@) =~= n.subrange(prefix as int, next_end as int));
        assert(window_spec(c, n, prefix as int, current_end as int, next_end as int));
    }
    (prefix, current_end, replacement)
}

proof fn lemma_window(c: Seq<u8>, n: Seq<u8>, p: int, s: int)
    requires
        valid_utf8(c),
        valid_utf8(n),
        is_common_prefix(c, n, p),
        is_common_suffix(c.subrange(p, c.len() as int), n.subrange(p, n.len() as int), s),
    ensures
        p <= c.len() - s,
        p <= n.len() - s,
        is_char_boundary(c, p),
        is_char_boundary(n, n.len() - s),
        is_char_boundary(c, c.len() - s),
        is_char_boundary(n.subrange(p, n.len() as int), n.len() - s - p),
        c.subrange(0, p) + n.subrange(p, n.len() - s) + c.subrange(c.len() - s, c.len() as int) == n,
{
    let ct = c.subrange(p, c.len() as int);
    let nt = n.subrange(p, n.len() as int);
    lemma_tail_boundary(c, p, ct.len() - s);
    lemma_tail_boundary(n, p, nt.len() - s);
    assert(c.subrange(c.len() - s, c.len() as int) =~= ct.subrange(ct.len() - s, ct.len() as int));
    assert(n.subrange(n.len() - s, n.len() as int) =~= nt.subrange(nt.len() - s, nt.len() as int));
    assert(c.subrange(0, p) + n.subrange(p, n.len() - s) + c.subrange(c.len() - s, c.len() as int) =~= n);
}

proof fn lemma_tail_boundary(x: Seq<u8>, p: int, i: int)
    requires
        valid_utf8(x),
        0 <= p <= x.len(),
        is_char_boundary(x, p),
        0 <= i <= x.len() - p,
        is_char_boundary(x.subrange(p, x.len() as int), i),
    ensures
        is_char_boundary(x, p + i),
{
    let t = x.subrange(p, x.len() as int);
    valid_utf8_split(x, p);
    is_char_boundary_start_end_of_seq(x);
    if p + i < x.len() {
        assert(t[i] == x[p + i]);
        is_char_boundary_iff_not_is_continuation_byte(t, i);
        is_char_boundary_iff_not_is_continuation_byte(x, p + i);
    }
}

/// `t` is the single-edit transaction that turns `current` into `next` at `expected_revision`:
/// one edit over the smallest UTF-8-safe window (longest common prefix, then longest common
/// suffix of the rest), replaced by `next`'s bytes there.
pub open spec fn replacement_of(t: DocumentTransaction, expected_revision: DocumentRevision, current: Seq<char>, next: Seq<char>) -> bool {
    &&& t.expected_revision == expected_revision
    &&& t.edits@.len() == 1
    &&& window_spec(utf8(current), utf8(next), t.edits@[0].start_utf8.0 as int, t.edits@[0].end_utf8.0 as int,
        next_end_of(utf8(current), utf8(next), t.edits@[0].end_utf8.0 as int))
    &&& utf8(t.edits@[0].replacement@) == utf8(next).subrange(t.edits@[0].start_utf8.0 as int,
        next_end_of(utf8(current), utf8(next), t.edits@[0].end_utf8.0 as int))
    &&& utf8(current).subrange(0, t.edits@[0].start_utf8.0 as int) + utf8(t.edits@[0].replacement@)
        + utf8(current).subrange(t.edits@[0].end_utf8.0 as int, utf8(current).len() as int) == utf8(next)
}

/// The single-edit transaction that turns `current` into `next` at `expected_revision`.
pub fn replacement_transaction(expected_revision: DocumentRevision, current: &str, next: &str) -> (t: DocumentTransaction)
    ensures
        replacement_of(t, expected_revision, current@, next@),
{
    let (start, end, replacement) = replacement_window(current, next);
    let start_utf8 = TextOffset::new(start as u64);
    let end_utf8 = TextOffset::new(end as u64);
    let edit = TextEdit { start_utf8, end_utf8, replacement: replacement.to_owned() };
    let mut edits: Vec<TextEdit> = Vec::new();
    edits.push(edit);
    DocumentTransaction { expected_revision, edits }
}

/// A single edit's transaction leaves the text's bytes spliced by that edit.
proof fn lemma_single_edit_result(text: Seq<char>, e: TextEdit)
    ensures
        transaction_result(text, seq![e]) == splice(utf8(text), e),
{
    let one = seq![e];
    assert(one.drop_first() =~= Seq::<TextEdit>::empty());
    assert(one[0] == e);
    assert(sort_by_start(Seq::<TextEdit>::empty()) =~= Seq::<TextEdit>::empty());
    assert(sort_by_start(one) == insert_before_equal(sort_by_start(one.drop_first()), one[0]));
    assert(sort_by_start(seq![e]) == insert_before_equal(Seq::<TextEdit>::empty(), e));
    assert(sort_by_start(seq![e]) =~= seq![e]);
    assert(seq![e].drop_last() =~= Seq::<TextEdit>::empty());
    assert(apply_from_back(utf8(text), seq![e]) == apply_from_back(splice(utf8(text), e), Seq::<TextEdit>::empty()));
}

/// `s` presents the generation and revision the session currently holds.
pub open spec fn snapshot_of<E>(s: EditorSnapshot, session: DocumentSession<E>) -> bool {
    &&& s.spec_generation() == session.spec_generation().spec_get()
    &&& session.spec_revision() is Some
    &&& s.spec_revision() == session.spec_revision().unwrap().0
}

/// Product application core for one authoritative document session.
pub struct AppCore<E> {
    session: DocumentSession<E>,
}

impl<E> AppCore<E> {
    /// The session the application drives.
    pub closed spec fn spec_session(&self) -> DocumentSession<E> {
        self.session
    }
}

impl<E: DocumentEngine> AppCore<E> {
    pub fn new(engine: E) -> (a: Self)
        ensures
            a.spec_session().spec_generation().spec_get() == 0,
            a.spec_session().spec_revision() is None,
            a.spec_session().spec_engine() == engine,
    {
        AppCore { session: DocumentSession::new(engine) }
    }

    /// Opens a document from semantic text and returns the first current snapshot.
    pub fn open_text_document(&mut self, text: String) -> (r: Result<EditorSnapshot, EngineError>)
        ensures
            final(self).spec_session().spec_accepted() == old(self).spec_session().spec_accepted(),
            old(self).spec_session().spec_generation().spec_get() == u64::MAX ==> {
                &&& r matches Err(EngineError::Internal(m)) && m@ == generation_exhausted_text()
                &&& *final(self) == *old(self)
            },
            old(self).spec_session().spec_generation().spec_get() < u64::MAX ==> {
                ||| final(self).spec_session().spec_generation() == old(self).spec_session().spec_generation()
                    && final(self).spec_session().spec_revision() == old(self).spec_session().spec_revision()
                    && r is Err
                ||| final(self).spec_session().spec_generation().spec_get() == old(self).spec_session().spec_generation().spec_get() + 1
                    && final(self).spec_session().spec_revision() is Some
            },
            r matches Ok(s) ==> snapshot_of(s, final(self).spec_session()),
            final(self).spec_session().spec_submitted() == old(self).spec_session().spec_submitted(),
            r matches Ok(s) ==> s.spec_text() == text@
                && final(self).spec_session().spec_engine().spec_state() == Some((DocumentRevision(s.spec_revision()), s.spec_text())),
    {
        match self.session.open_text_fixture(text) {
            Err(e) => Err(e),
            Ok(_) => self.snapshot(),
        }
    }

    /// Returns a current, authority-validated semantic snapshot for presentation.
    pub fn snapshot(&self) -> (r: Result<EditorSnapshot, EngineError>)
        ensures
            r matches Ok(s) ==> snapshot_of(s, self.spec_session()),
            r matches Ok(s) ==> self.spec_session().spec_engine().spec_state() == Some((DocumentRevision(s.spec_revision()), s.spec_text())),
            self.spec_session().spec_revision() is None ==> r is Err,
    {
        match self.session.semantic_text() {
            Err(e) => Err(e),
            Ok(o) => Ok(EditorSnapshot::from_observation(o)),
        }
    }

    /// Replaces the current semantic text as one user intent.
    ///
    /// A byte-identical replacement is a true no-op and does not advance revision; otherwise the
    /// smallest UTF-8-safe window is sent as one transaction (see `replacement_transaction`).
    pub fn replace_document_text(&mut self, next_text: String) -> (r: Result<EditorSnapshot, EngineError>)
        ensures
            final(self).spec_session().spec_generation() == old(self).spec_session().spec_generation(),
            r matches Ok(s) ==> snapshot_of(s, final(self).spec_session()),
            r matches Ok(s) ==> (s.spec_text() == next_text@ && *final(self) == *old(self))
                || final(self).spec_session().spec_accepted() == old(self).spec_session().spec_accepted() + 1,
            r is Err ==> (final(self).spec_session().spec_accepted() == old(self).spec_session().spec_accepted()
                    && final(self).spec_session().spec_revision() == old(self).spec_session().spec_revision())
                || (final(self).spec_session().spec_accepted() == old(self).spec_session().spec_accepted() + 1
                    && final(self).spec_session().spec_revision() is Some),
            old(self).spec_session().spec_revision() is None ==> r is Err,
            r matches Ok(s) ==> s.spec_text() == next_text@
                && final(self).spec_session().spec_engine().spec_state() == Some((DocumentRevision(s.spec_revision()), s.spec_text())),
            (old(self).spec_session().spec_engine().spec_state() matches Some(st) && st.1 == next_text@)
                ==> *final(self) == *old(self),
            final(self).spec_session().spec_submitted() == old(self).spec_session().spec_submitted() || ({
                let before = old(self).spec_session().spec_submitted();
                let after = final(self).spec_session().spec_submitted();
                &&& old(self).spec_session().spec_engine().spec_state() matches Some(st)
                &&& st.1 != next_text@
                &&& after.len() == before.len() + 1
                &&& after.subrange(0, before.len() as int) == before
                &&& replacement_of(after.last(), st.0, st.1, next_text@)
            }),
            (r is Ok && (old(self).spec_session().spec_engine().spec_state() matches Some(st) && st.1 != next_text@))
                ==> final(self).spec_session().spec_submitted().len() == old(self).spec_session().spec_submitted().len() + 1,
    {
        let current = match self.session.semantic_text() {
            Err(e) => {
                return Err(e);
            },
            Ok(c) => c,
        };
        if *current.value() == next_text {
            return Ok(EditorSnapshot::from_observation(current));
        }
        let expected_revision = current.revision();
        let transaction = replacement_transaction(expected_revision, current.value().as_str(), next_text.as_str());
        let ghost t = transaction;
        proof {
            lemma_single_edit_result(current.spec_value()@, t.edits@[0]);
            assert(t.edits@ =~= seq![t.edits@[0]]);
        }
        let ghost before = self.session.spec_submitted();
        match self.session.apply_transaction(transaction) {
            Err(e) => {
                proof {
                    let after = self.session.spec_submitted();
                    if after != before {
                        assert(after.subrange(0, before.len() as int) =~= before);
                    }
                }
                Err(e)
            },
            Ok(_) => {
                proof {
                    assert(self.session.spec_submitted().subrange(0, before.len() as int) =~= before);
                    let after = self.session.spec_engine().spec_state().unwrap();
                    encode_utf8_decode_utf8(after.1);
                    encode_utf8_decode_utf8(next_text@);
                    assert(after.1 == next_text@);
                }
                self.snapshot()
            },
        }
    }
}

} // verus!
