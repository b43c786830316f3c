//! Undo and redo by whole-document snapshots, with revision numbers that
//! tell whether the document differs from what was last saved.

use vstd::prelude::*;

use crate::document::{pixel_memory, Document, DocumentView};

verus! {

/// The most bytes of pixel memory that the undo snapshots may hold together.
pub const HISTORY_BYTE_LIMIT: u64 = 128 * 1024 * 1024;

/// A document as it was, with the revision it had then.
pub struct Snapshot {
    pub document: Document,
    pub revision: u64,
}

/// The undo and redo stacks, the revision of the current document, the
/// revision last saved, and the next unused revision number.
pub struct History {
    pub undo_history: Vec<Snapshot>,
    pub redo_history: Vec<Snapshot>,
    pub current_revision: u64,
    pub saved_revision: Option<u64>,
    pub next_revision: u64,
}

/// A history as plain values; each snapshot is a document and its revision.
#[verifier::ext_equal]
pub struct HistoryView {
    pub undo: Seq<(DocumentView, u64)>,
    pub redo: Seq<(DocumentView, u64)>,
    pub current: u64,
    pub saved: Option<u64>,
    pub next: u64,
}

pub open spec fn snapshot_views(snapshots: Seq<Snapshot>) -> Seq<(DocumentView, u64)> {
    snapshots.map_values(|snapshot: Snapshot| (snapshot.document@, snapshot.revision))
}

impl View for History {
    type V = HistoryView;

    open spec fn view(&self) -> HistoryView {
        HistoryView {
            undo: snapshot_views(self.undo_history@),
            redo: snapshot_views(self.redo_history@),
            current: self.current_revision,
            saved: self.saved_revision,
            next: self.next_revision,
        }
    }
}

/// Bytes of pixel memory that the snapshots hold together.
pub open spec fn snapshots_bytes(snapshots: Seq<(DocumentView, u64)>) -> int
    decreases snapshots.len(),
{
    if snapshots.len() == 0 {
        0
    } else {
        snapshots_bytes(snapshots.drop_last()) + pixel_memory(snapshots.last().0.layers)
    }
}

/// The undo stack once its oldest snapshots are dropped until a new
/// snapshot of `incoming` bytes fits under the limit, or none is left.
pub open spec fn trimmed(undo: Seq<(DocumentView, u64)>, incoming: int) -> Seq<(DocumentView, u64)>
    decreases undo.len(),
{
    if undo.len() == 0 || snapshots_bytes(undo) + incoming <= HISTORY_BYTE_LIMIT {
        undo
    } else {
        trimmed(undo.drop_first(), incoming)
    }
}

impl HistoryView {
    /// Every revision in use is below the next unused one.
    pub open spec fn wf(self) -> bool {
        &&& self.current < self.next
        &&& self.saved matches Some(saved) ==> saved < self.next
        &&& forall|i: int| 0 <= i < self.undo.len() ==> (#[trigger] self.undo[i]).1 < self.next
        &&& forall|i: int| 0 <= i < self.redo.len() ==> (#[trigger] self.redo[i]).1 < self.next
    }

    /// The current document differs from the one last saved.
    pub open spec fn is_modified(self) -> bool {
        self.saved != Some(self.current)
    }

    /// The history once `previous`, the document before an edit, is
    /// recorded: redo is cleared, the oldest snapshots make room, and the
    /// edit gets a fresh revision.
    pub open spec fn recorded(self, previous: DocumentView) -> HistoryView {
        HistoryView {
            undo: trimmed(self.undo, pixel_memory(previous.layers)).push((previous, self.current)),
            redo: Seq::empty(),
            current: self.next,
            saved: self.saved,
            next: (self.next + 1) as u64,
        }
    }

    /// Undoing with `document` current: the history after it and the document
    /// it restores, or `None` when there is nothing to undo.
    pub open spec fn undone(self, document: DocumentView) -> Option<(HistoryView, DocumentView)> {
        if self.undo.len() == 0 {
            None
        } else {
            let previous = self.undo.last();
            Some(
                (
                    HistoryView {
                        undo: self.undo.drop_last(),
                        redo: self.redo.push((document, self.current)),
                        current: previous.1,
                        saved: self.saved,
                        next: self.next,
                    },
                    previous.0,
                ),
            )
        }
    }

    /// Redoing with `document` current: the history after it and the document
    /// it restores, or `None` when there is nothing to redo.
    pub open spec fn redone(self, document: DocumentView) -> Option<(HistoryView, DocumentView)> {
        if self.redo.len() == 0 {
            None
        } else {
            let next = self.redo.last();
            Some(
                (
                    HistoryView {
                        undo: self.undo.push((document, self.current)),
                        redo: self.redo.drop_last(),
                        current: next.1,
                        saved: self.saved,
                        next: self.next,
                    },
                    next.0,
                ),
            )
        }
    }
}

/// Bytes of pixel memory that a document holds, four per pixel, or
/// `u64::MAX` when that does not fit.
pub fn document_bytes(document: &Document) -> (bytes: u64)
    ensures
        bytes == if pixel_memory(document@.layers) <= u64::MAX {
            pixel_memory(document@.layers)
        } else {
            u64::MAX as int
        },
{
    let mut total: u64 = 0;
    let mut i: usize = 0;
    while i < document.layers.len()
        invariant
            i <= document.layers@.len(),
            total == if pixel_memory(document@.layers.subrange(0, i as int)) <= u64::MAX {
                pixel_memory(document@.layers.subrange(0, i as int))
            } else {
                u64::MAX as int
            },
        decreases document.layers@.len() - i,
    {
        let count = document.layers[i].pixels.pixels.len() as u64;
        let layer_bytes = match count.checked_mul(4) {
            Some(bytes) => bytes,
            None => u64::MAX,
        };
        total = total.saturating_add(layer_bytes);
        proof {
            let layers = document@.layers;
            assert(layers.subrange(0, i + 1).drop_last() =~= layers.subrange(0, i as int));
            assert(layers.subrange(0, i + 1).last() == layers[i as int]);
            lemma_pixel_memory_nonnegative(layers.subrange(0, i as int));
        }
        i += 1;
    }
    assert(document@.layers.subrange(0, i as int) =~= document@.layers);
    total
}

/// Bytes of pixel memory that the snapshots hold together, or `u64::MAX`
/// when that does not fit.
pub fn history_bytes(history: &Vec<Snapshot>) -> (bytes: u64)
    ensures
        bytes == if snapshots_bytes(snapshot_views(history@)) <= u64::MAX {
            snapshots_bytes(snapshot_views(history@))
        } else {
            u64::MAX as int
        },
{
    let mut total: u64 = 0;
    let mut i: usize = 0;
    while i < history.len()
        invariant
            i <= history@.len(),
            total == if snapshots_bytes(snapshot_views(history@).subrange(0, i as int)) <= u64::MAX {
                snapshots_bytes(snapshot_views(history@).subrange(0, i as int))
            } else {
                u64::MAX as int
            },
        decreases history@.len() - i,
    {
        let bytes = document_bytes(&history[i].document);
        total = total.saturating_add(bytes);
        proof {
            let views = snapshot_views(history@);
            assert(views.subrange(0, i + 1).drop_last() =~= views.subrange(0, i as int));
            assert(views.subrange(0, i + 1).last() == views[i as int]);
            lemma_snapshots_bytes_nonnegative(views.subrange(0, i as int));
            lemma_pixel_memory_nonnegative(views[i as int].0.layers);
        }
        i += 1;
    }
    assert(snapshot_views(history@).subrange(0, i as int) =~= snapshot_views(history@));
    total
}

impl History {
    /// An empty history for no document yet: revision 0, never saved.
    pub fn new() -> (history: History)
        ensures
            history@ == (HistoryView {
                undo: Seq::empty(),
                redo: Seq::empty(),
                current: 0,
                saved: None,
                next: 1,
            }),
    {
        let history = History {
            undo_history: Vec::new(),
            redo_history: Vec::new(),
            current_revision: 0,
            saved_revision: None,
            next_revision: 1,
        };
        assert(history@.undo =~= Seq::empty());
        assert(history@.redo =~= Seq::empty());
        history
    }

    /// Whether there is a document and it differs from the one last saved.
    pub fn has_unsaved_changes(&self, has_document: bool) -> (unsaved: bool)
        ensures
            unsaved == (has_document && self@.is_modified()),
    {
        has_document && !matches!(self.saved_revision, Some(saved) if saved == self.current_revision)
    }

    /// Gives the current document the next unused revision.
    fn advance_revision(&mut self)
        requires
            old(self).next_revision < u64::MAX,
        ensures
            final(self)@ == (HistoryView {
                current: old(self).next_revision,
                next: (old(self).next_revision + 1) as u64,
                ..old(self)@
            }),
    {
        self.current_revision = self.next_revision;
        self.next_revision = self.next_revision + 1;
    }

    /// Clears redo and drops the oldest undo snapshots until one of
    /// `snapshot_bytes` more fits under `HISTORY_BYTE_LIMIT`, or none is left.
    pub fn prepare_history(&mut self, snapshot_bytes: u64)
        ensures
            final(self)@ == (HistoryView {
                undo: trimmed(old(self)@.undo, snapshot_bytes as int),
                redo: Seq::empty(),
                ..old(self)@
            }),
    {
        self.redo_history.clear();
        while self.undo_history.len() > 0
            && history_bytes(&self.undo_history).saturating_add(snapshot_bytes) > HISTORY_BYTE_LIMIT
            invariant
                trimmed(snapshot_views(self.undo_history@), snapshot_bytes as int)
                    == trimmed(old(self)@.undo, snapshot_bytes as int),
                self.redo_history@.len() == 0,
                self.current_revision == old(self).current_revision,
                self.saved_revision == old(self).saved_revision,
                self.next_revision == old(self).next_revision,
            decreases self.undo_history@.len(),
        {
            let ghost before = snapshot_views(self.undo_history@);
            proof {
                lemma_snapshots_bytes_nonnegative(before);
            }
            self.undo_history.remove(0);
            assert(snapshot_views(self.undo_history@) =~= before.drop_first());
        }
        proof {
            lemma_snapshots_bytes_nonnegative(snapshot_views(self.undo_history@));
            assert(snapshot_views(self.redo_history@) =~= Seq::empty());
        }
    }

    /// Records `document`, about to be edited, as the newest undo snapshot.
    pub fn checkpoint(&mut self, document: &Document)
        requires
            old(self).next_revision < u64::MAX,
        ensures
            final(self)@ == old(self)@.recorded(document@),
    {
        let snapshot = document.duplicate();
        self.remember(snapshot);
    }

    /// Records `snapshot`, the document as it was before an edit that has
    /// already been made, as the newest undo snapshot.
    pub fn remember(&mut self, snapshot: Document)
        requires
            old(self).next_revision < u64::MAX,
        ensures
            final(self)@ == old(self)@.recorded(snapshot@),
    {
        let bytes = document_bytes(&snapshot);
        proof {
            lemma_trimmed_saturated(self@.undo, pixel_memory(snapshot@.layers));
        }
        self.prepare_history(bytes);
        let ghost trimmed_undo = self@.undo;
        let revision = self.current_revision;
        self.undo_history.push(Snapshot { document: snapshot, revision });
        assert(self@.undo =~= trimmed_undo.push((snapshot@, revision)));
        self.advance_revision();
    }

    /// Swaps `document` for the newest undo snapshot and pushes it onto redo.
    /// Returns whether there was anything to undo.
    pub fn undo(&mut self, document: &mut Document) -> (undone: bool)
        ensures
            match old(self)@.undone(old(document)@) {
                None => !undone && final(self)@ == old(self)@ && final(document)@ == old(document)@,
                Some((history, restored)) => undone && final(self)@ == history && final(document)@ == restored,
            },
    {
        let ghost views = self@.undo;
        match self.undo_history.pop() {
            None => false,
            Some(mut previous) => {
                assert(snapshot_views(self.undo_history@) =~= views.drop_last());
                std::mem::swap(document, &mut previous.document);
                let ghost redo_before = self@.redo;
                let revision = self.current_revision;
                self.redo_history.push(Snapshot { document: previous.document, revision });
                assert(self@.redo =~= redo_before.push((old(document)@, revision)));
                self.current_revision = previous.revision;
                true
            },
        }
    }

    /// Swaps `document` for the newest redo snapshot and pushes it onto undo.
    /// Returns whether there was anything to redo.
    pub fn redo(&mut self, document: &mut Document) -> (redone: bool)
        ensures
            match old(self)@.redone(old(document)@) {
                None => !redone && final(self)@ == old(self)@ && final(document)@ == old(document)@,
                Some((history, restored)) => redone && final(self)@ == history && final(document)@ == restored,
            },
    {
        let ghost views = self@.redo;
        match self.redo_history.pop() {
            None => false,
            Some(mut next) => {
                assert(snapshot_views(self.redo_history@) =~= views.drop_last());
                std::mem::swap(document, &mut next.document);
                let ghost undo_before = self@.undo;
                let revision = self.current_revision;
                self.undo_history.push(Snapshot { document: next.document, revision });
                assert(self@.undo =~= undo_before.push((old(document)@, revision)));
                self.current_revision = next.revision;
                true
            },
        }
    }

    /// Forgets everything, as when the document is closed: revision 0, never
    /// saved.
    pub fn reset(&mut self)
        ensures
            final(self)@ == (HistoryView {
                undo: Seq::empty(),
                redo: Seq::empty(),
                current: 0,
                saved: None,
                ..old(self)@
            }),
    {
        self.undo_history.clear();
        self.redo_history.clear();
        self.current_revision = 0;
        self.saved_revision = None;
        assert(snapshot_views(self.undo_history@) =~= Seq::empty());
        assert(snapshot_views(self.redo_history@) =~= Seq::empty());
    }

    /// Starts over for a newly created document: a fresh revision that was
    /// never saved.
    pub fn start_document(&mut self)
        requires
            old(self).next_revision < u64::MAX,
        ensures
            final(self)@ == (HistoryView {
                undo: Seq::empty(),
                redo: Seq::empty(),
                current: old(self).next_revision,
                saved: None,
                next: (old(self).next_revision + 1) as u64,
            }),
    {
        self.advance_revision();
        self.saved_revision = None;
        self.undo_history.clear();
        self.redo_history.clear();
        assert(snapshot_views(self.undo_history@) =~= Seq::empty());
        assert(snapshot_views(self.redo_history@) =~= Seq::empty());
    }

    /// Starts over for a document just read from a file: a fresh revision
    /// that counts as saved.
    pub fn open_document(&mut self)
        requires
            old(self).next_revision < u64::MAX,
        ensures
            final(self)@ == (HistoryView {
                undo: Seq::empty(),
                redo: Seq::empty(),
                current: old(self).next_revision,
                saved: Some(old(self).next_revision),
                next: (old(self).next_revision + 1) as u64,
            }),
    {
        self.undo_history.clear();
        self.redo_history.clear();
        self.advance_revision();
        self.saved_revision = Some(self.current_revision);
        assert(snapshot_views(self.undo_history@) =~= Seq::empty());
        assert(snapshot_views(self.redo_history@) =~= Seq::empty());
    }

    /// Marks the current revision as the one last saved.
    pub fn mark_saved(&mut self)
        ensures
            final(self)@ == (HistoryView { saved: Some(old(self).current_revision), ..old(self)@ }),
    {
        self.saved_revision = Some(self.current_revision);
    }
}

/// Trimming for a snapshot too large to count in `u64` is trimming for
/// `u64::MAX` bytes: both empty the undo stack.
pub proof fn lemma_trimmed_saturated(undo: Seq<(DocumentView, u64)>, incoming: int)
    requires
        incoming >= 0,
    ensures
        trimmed(undo, incoming) == trimmed(
            undo,
            if incoming <= u64::MAX { incoming } else { u64::MAX as int },
        ),
    decreases undo.len(),
{
    lemma_snapshots_bytes_nonnegative(undo);
    if undo.len() > 0 {
        lemma_trimmed_saturated(undo.drop_first(), incoming);
    }
}

pub proof fn lemma_pixel_memory_nonnegative(layers: Seq<crate::document::LayerView>)
    ensures
        pixel_memory(layers) >= 0,
    decreases layers.len(),
{
    if layers.len() > 0 {
        lemma_pixel_memory_nonnegative(layers.drop_last());
    }
}

pub proof fn lemma_snapshots_bytes_nonnegative(snapshots: Seq<(DocumentView, u64)>)
    ensures
        snapshots_bytes(snapshots) >= 0,
    decreases snapshots.len(),
{
    if snapshots.len() > 0 {
        lemma_snapshots_bytes_nonnegative(snapshots.drop_last());
        lemma_pixel_memory_nonnegative(snapshots.last().0.layers);
    }
}

} // verus!

verus! {

/// Undoing right after recording an edit brings back the document as it was
/// before the edit, with its revision, and offers the edited document for
/// redo.
pub proof fn lemma_undo_restores_recorded(history: HistoryView, before: DocumentView, after: DocumentView)
    ensures
        history.recorded(before).undone(after) == Some(
            (
                HistoryView {
                    undo: trimmed(history.undo, pixel_memory(before.layers)),
                    redo: seq![(after, history.next)],
                    current: history.current,
                    saved: history.saved,
                    next: (history.next + 1) as u64,
                },
                before,
            ),
        ),
{
    let recorded = history.recorded(before);
    assert(recorded.undo.drop_last() =~= trimmed(history.undo, pixel_memory(before.layers)));
    assert(recorded.redo.push((after, recorded.current)) =~= seq![(after, history.next)]);
}

/// Redo reverts an undo: the history and the document come back exactly.
pub proof fn lemma_redo_reverts_undo(history: HistoryView, document: DocumentView)
    requires
        history.undo.len() > 0,
    ensures
        ({
            let (undone, restored) = history.undone(document).unwrap();
            undone.redone(restored) == Some((history, document))
        }),
{
    let (undone, restored) = history.undone(document).unwrap();
    assert(undone.undo.push((restored, undone.current)) =~= history.undo);
    assert(undone.redo.drop_last() =~= history.redo);
}

/// Undo reverts a redo: the history and the document come back exactly.
pub proof fn lemma_undo_reverts_redo(history: HistoryView, document: DocumentView)
    requires
        history.redo.len() > 0,
    ensures
        ({
            let (redone, restored) = history.redone(document).unwrap();
            redone.undone(restored) == Some((history, document))
        }),
{
    let (redone, restored) = history.redone(document).unwrap();
    assert(redone.redo.push((restored, redone.current)) =~= history.redo);
    assert(redone.undo.drop_last() =~= history.undo);
}

/// After an edit from `before` to `after` is recorded, undo brings back
/// `before` and redo then brings back `after` with the history as it was
/// right after the edit; a new edit recorded after the undo leaves nothing
/// to redo, whatever the document then is.
pub proof fn lemma_undo_redo_round_trip(
    history: HistoryView,
    before: DocumentView,
    after: DocumentView,
    replacement: DocumentView,
)
    ensures
        ({
            let recorded = history.recorded(before);
            let (undone, restored) = recorded.undone(after).unwrap();
            &&& recorded.undone(after) is Some
            &&& restored == before
            &&& undone.redone(restored) == Some((recorded, after))
            &&& undone.recorded(restored).redone(replacement) is None
        }),
{
    lemma_undo_restores_recorded(history, before, after);
    lemma_redo_reverts_undo(history.recorded(before), after);
}

/// A new edit clears redo: nothing can be redone after it.
pub proof fn lemma_new_edit_clears_redo(history: HistoryView, before: DocumentView, current: DocumentView)
    ensures
        history.recorded(before).redo.len() == 0,
        history.recorded(before).redone(current) is None,
{
}

/// Every operation keeps each revision in use below the next unused one.
pub proof fn lemma_operations_keep_revisions_ordered(history: HistoryView, document: DocumentView)
    requires
        history.wf(),
        history.next < u64::MAX,
    ensures
        history.recorded(document).wf(),
        history.undone(document) matches Some((undone, _)) ==> undone.wf(),
        history.redone(document) matches Some((redone, _)) ==> redone.wf(),
{
    let recorded = history.recorded(document);
    let kept = trimmed(history.undo, pixel_memory(document.layers));
    lemma_trimmed_is_suffix(history.undo, pixel_memory(document.layers));
    assert forall|i: int| 0 <= i < recorded.undo.len() implies (#[trigger] recorded.undo[i]).1 < recorded.next by {
        if i < kept.len() {
            assert(kept[i] == history.undo[i + history.undo.len() - kept.len()]);
        }
    }
    if history.undo.len() > 0 {
        let (undone, _) = history.undone(document).unwrap();
        assert forall|i: int| 0 <= i < undone.redo.len() implies (#[trigger] undone.redo[i]).1 < undone.next by {
            if i < history.redo.len() {
                assert(undone.redo[i] == history.redo[i]);
            }
        }
        assert(history.undo[history.undo.len() - 1].1 < history.next);
    }
    if history.redo.len() > 0 {
        let (redone, _) = history.redone(document).unwrap();
        assert forall|i: int| 0 <= i < redone.undo.len() implies (#[trigger] redone.undo[i]).1 < redone.next by {
            if i < history.undo.len() {
                assert(redone.undo[i] == history.undo[i]);
            }
        }
        assert(history.redo[history.redo.len() - 1].1 < history.next);
    }
}

/// Undo and redo keep each revision in use below the next unused one.
pub proof fn lemma_operations_keep_revisions_ordered_without_record(history: HistoryView, document: DocumentView)
    requires
        history.wf(),
    ensures
        history.undone(document) matches Some((undone, _)) ==> undone.wf(),
        history.redone(document) matches Some((redone, _)) ==> redone.wf(),
{
    if history.undo.len() > 0 {
        let (undone, _) = history.undone(document).unwrap();
        assert forall|i: int| 0 <= i < undone.redo.len() implies (#[trigger] undone.redo[i]).1 < undone.next by {
            if i < history.redo.len() {
                assert(undone.redo[i] == history.redo[i]);
            }
        }
        assert forall|i: int| 0 <= i < undone.undo.len() implies (#[trigger] undone.undo[i]).1 < undone.next by {
            assert(undone.undo[i] == history.undo[i]);
        }
        assert(history.undo[history.undo.len() - 1].1 < history.next);
    }
    if history.redo.len() > 0 {
        let (redone, _) = history.redone(document).unwrap();
        assert forall|i: int| 0 <= i < redone.undo.len() implies (#[trigger] redone.undo[i]).1 < redone.next by {
            if i < history.undo.len() {
                assert(redone.undo[i] == history.undo[i]);
            }
        }
        assert forall|i: int| 0 <= i < redone.redo.len() implies (#[trigger] redone.redo[i]).1 < redone.next by {
            assert(redone.redo[i] == history.redo[i]);
        }
        assert(history.redo[history.redo.len() - 1].1 < history.next);
    }
}

/// An edit after saving leaves the document with unsaved changes.
pub proof fn lemma_edit_after_save_is_unsaved(history: HistoryView, before: DocumentView)
    requires
        history.wf(),
    ensures
        history.recorded(before).is_modified(),
{
}

/// Undoing an edit made right after saving brings back the saved revision,
/// so nothing is left unsaved.
pub proof fn lemma_undo_to_saved_revision_is_saved(history: HistoryView, before: DocumentView, after: DocumentView)
    requires
        !history.is_modified(),
    ensures
        history.recorded(before).undone(after) matches Some((undone, _)) && !undone.is_modified(),
{
    lemma_undo_restores_recorded(history, before, after);
}

/// After an edit is recorded, the undo snapshots stay within
/// `HISTORY_BYTE_LIMIT`, unless the newest one alone is larger.
pub proof fn lemma_recorded_history_fits(history: HistoryView, before: DocumentView)
    ensures
        snapshots_bytes(history.recorded(before).undo) <= HISTORY_BYTE_LIMIT
            || history.recorded(before).undo.len() == 1,
{
    let incoming = pixel_memory(before.layers);
    let kept = trimmed(history.undo, incoming);
    lemma_trimmed_fits(history.undo, incoming);
    let recorded = history.recorded(before).undo;
    assert(recorded.drop_last() =~= kept);
}

/// What trimming keeps is a suffix of the undo stack.
pub proof fn lemma_trimmed_is_suffix(undo: Seq<(DocumentView, u64)>, incoming: int)
    ensures
        trimmed(undo, incoming).len() <= undo.len(),
        trimmed(undo, incoming) =~= undo.subrange(
            undo.len() - trimmed(undo, incoming).len(),
            undo.len() as int,
        ),
    decreases undo.len(),
{
    if undo.len() > 0 && snapshots_bytes(undo) + incoming > HISTORY_BYTE_LIMIT {
        lemma_trimmed_is_suffix(undo.drop_first(), incoming);
        let rest = trimmed(undo.drop_first(), incoming);
        assert(undo.drop_first().subrange(undo.len() - 1 - rest.len(), undo.len() - 1) =~= undo.subrange(
            undo.len() - rest.len(),
            undo.len() as int,
        ));
    } else {
        assert(undo.subrange(0, undo.len() as int) =~= undo);
    }
}

/// Trimming leaves an empty stack or one that a snapshot of `incoming` bytes
/// joins within the limit.
pub proof fn lemma_trimmed_fits(undo: Seq<(DocumentView, u64)>, incoming: int)
    ensures
        trimmed(undo, incoming).len() == 0 || snapshots_bytes(trimmed(undo, incoming)) + incoming
            <= HISTORY_BYTE_LIMIT,
    decreases undo.len(),
{
    if undo.len() > 0 && snapshots_bytes(undo) + incoming > HISTORY_BYTE_LIMIT {
        lemma_trimmed_fits(undo.drop_first(), incoming);
    }
}

} // verus!
