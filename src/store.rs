//! The current document and its projection, and the store that shares the
//! pair between the ingestion side and the display side.
use vstd::prelude::*;
use vstd::rwlock::{RwLock, RwLockPredicate};
use crate::document::{empty_log, Log, LogView};
use crate::projection::{project, projection_of, Projection};

verus! {

/// What a state holds: a document and a projection.
pub struct StateView {
    pub document: LogView,
    pub projection: Map<Seq<char>, serde_json::Value>,
}

/// The state that replacing the document by `d` leaves: `d` itself and its
/// projection, whatever was there before.
pub open spec fn replaced(d: LogView) -> StateView {
    StateView { document: d, projection: projection_of(d) }
}

/// The state after the documents of `docs` have replaced one another in
/// turn, starting from `s`.
pub open spec fn replace_all(s: StateView, docs: Seq<LogView>) -> StateView
    decreases docs.len(),
{
    if docs.len() == 0 {
        s
    } else {
        replace_all(replaced(docs[0]), docs.drop_first())
    }
}

/// The current document and its projection.
pub struct AppState {
    pub current_document: Log,
    pub mapped_document: Projection,
}

impl View for AppState {
    type V = StateView;

    open spec fn view(&self) -> StateView {
        StateView { document: self.current_document@, projection: self.mapped_document@ }
    }
}

impl AppState {
    /// The projection is the one of the current document.
    pub open spec fn wf(&self) -> bool {
        self.mapped_document.wf() && self.mapped_document@ == projection_of(self.current_document@)
    }

    /// The state before anything is ingested: the empty document and its
    /// (empty) projection.
    pub fn new() -> (r: AppState)
        ensures
            r.wf(),
            r@ == replaced(empty_log()),
    {
        let current_document = Log::new();
        let mapped_document = project(&current_document);
        AppState { current_document, mapped_document }
    }

    /// Replaces the document by `new_log` and recomputes the projection in
    /// full.
    pub fn update_log(&mut self, new_log: Log)
        ensures
            final(self).wf(),
            final(self)@ == replaced(new_log@),
    {
        let mapped_document = project(&new_log);
        self.current_document = new_log;
        self.mapped_document = mapped_document;
    }
}

/// Replacing a document by the same one twice leaves what replacing it once
/// leaves, projection included.
pub proof fn lemma_replace_idempotent(s: StateView, d: LogView)
    ensures
        replace_all(s, seq![d, d]) == replace_all(s, seq![d]),
        replace_all(s, seq![d, d]).projection == replace_all(s, seq![d]).projection,
{
    assert(seq![d, d].drop_first() =~= seq![d]);
    assert(seq![d].drop_first() =~= Seq::<LogView>::empty());
    assert(replace_all(replaced(d), Seq::<LogView>::empty()) == replaced(d));
    assert(replace_all(s, seq![d]) == replaced(d));
    assert(replace_all(replaced(d), seq![d]) == replaced(d));
}

/// Replacements applied one after another, in whatever order they were
/// serialized, leave exactly the last document handed in, whole, with its own
/// projection: never a mixture of two documents.
pub proof fn lemma_serialized_replaces(s: StateView, docs: Seq<LogView>)
    requires
        docs.len() > 0,
    ensures
        replace_all(s, docs) == replaced(docs.last()),
        exists|i: int| 0 <= i < docs.len() && replace_all(s, docs).document == #[trigger] docs[i],
        replace_all(s, docs).projection == projection_of(replace_all(s, docs).document),
    decreases docs.len(),
{
    let rest = docs.drop_first();
    if docs.len() > 1 {
        lemma_serialized_replaces(replaced(docs[0]), rest);
        assert(rest.last() == docs.last());
    } else {
        assert(rest.len() == 0);
        assert(replace_all(replaced(docs[0]), rest) == replaced(docs[0]));
    }
    assert(replace_all(s, docs) == replace_all(replaced(docs[0]), rest));
    assert(replace_all(s, docs).document == docs[docs.len() - 1]);
}

/// Two replacements in quick succession: what is read afterwards is the
/// second document's projection.
pub proof fn lemma_last_replace_wins(s: StateView, first: LogView, second: LogView)
    ensures
        replace_all(s, seq![first, second]).projection == projection_of(second),
        replace_all(s, seq![first, second]).document == second,
{
    lemma_serialized_replaces(s, seq![first, second]);
}

/// A state may be stored in the shared store only where its projection is
/// the one of its document.
pub struct Consistent;

impl RwLockPredicate<AppState> for Consistent {
    open spec fn inv(self, v: AppState) -> bool {
        v.wf()
    }
}

/// The state shared between the ingestion side and the display side. Every
/// access takes the one exclusive lock, so a reader sees the whole result of
/// some replacement (or the initial state), never part of one.
pub struct SharedState {
    lock: RwLock<AppState, Consistent>,
}

impl SharedState {
    #[verifier::type_invariant]
    spec fn guarded(&self) -> bool {
        self.lock.pred() == Consistent
    }

    /// A store holding the empty document.
    pub fn new() -> (r: SharedState) {
        SharedState { lock: RwLock::new(AppState::new(), Ghost(Consistent)) }
    }

    /// Under the lock, replaces the document by `new_log` and its projection
    /// by the projection of `new_log`.
    pub fn replace(&self, new_log: Log) {
        proof {
            use_type_invariant(self);
        }
        let (mut state, handle) = self.lock.acquire_write();
        state.update_log(new_log);
        handle.release_write(state);
    }

    /// Under the lock, a copy of the current projection: the projection of a
    /// whole stored document.
    pub fn read_projection(&self) -> (r: Projection)
        ensures
            r.wf(),
            exists|d: LogView| r@ == projection_of(d),
    {
        proof {
            use_type_invariant(self);
        }
        let (state, handle) = self.lock.acquire_write();
        let r = state.mapped_document.duplicate();
        handle.release_write(state);
        r
    }

    /// Under the lock, a copy of the current document.
    pub fn read_document(&self) -> (r: Log) {
        proof {
            use_type_invariant(self);
        }
        let (state, handle) = self.lock.acquire_write();
        let r = state.current_document.duplicate();
        handle.release_write(state);
        r
    }

    /// Under the lock, a copy of the current document and of its projection,
    /// taken together.
    pub fn read_state(&self) -> (r: AppState)
        ensures
            r.wf(),
    {
        proof {
            use_type_invariant(self);
        }
        let (state, handle) = self.lock.acquire_write();
        let r = AppState {
            current_document: state.current_document.duplicate(),
            mapped_document: state.mapped_document.duplicate(),
        };
        handle.release_write(state);
        r
    }
}

} // verus!
