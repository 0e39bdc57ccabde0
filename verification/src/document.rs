//! The parts of an open document that the workspace and history logic read.

use vstd::prelude::*;
use crate::history::{
    pushed, saved_base_after_push, saved_len_after_push, PendingEdits, UndoAction, UndoEntry, UndoStack,
};
use crate::history::apply::{holds_value, lemma_apply_roundtrip, spec_apply};
use crate::text::owned;

verus! {

/// Project-wide metadata of a document.
pub struct ProjectMeta {
    /// Song title (kept equal to the name of track 0).
    pub name: String,
    pub artist: String,
    pub description: String,
    /// Ticks per quarter note.
    pub ppq: u32,
    /// zstd level used when the project is saved.
    pub compression_level: i32,
}

/// The editable project fields that undo and redo write.
pub struct DocModel {
    pub meta: ProjectMeta,
    /// Track names, by track index.
    pub track_names: Vec<String>,
}

/// What a `DocModel` holds, as plain values.
pub struct ModelView {
    pub track_names: Seq<Seq<char>>,
    pub name: Seq<char>,
    pub artist: Seq<char>,
    pub description: Seq<char>,
    pub ppq: u32,
    pub compression_level: i32,
}

impl View for DocModel {
    type V = ModelView;

    open spec fn view(&self) -> ModelView {
        ModelView {
            track_names: self.track_names@.map_values(|s: String| s@),
            name: self.meta.name@,
            artist: self.meta.artist@,
            description: self.meta.description@,
            ppq: self.meta.ppq,
            compression_level: self.meta.compression_level,
        }
    }
}

/// A project without tracks or metadata, at 480 PPQ and zstd level 3.
pub open spec fn empty_model() -> ModelView {
    ModelView {
        track_names: Seq::empty(),
        name: Seq::empty(),
        artist: Seq::empty(),
        description: Seq::empty(),
        ppq: 480,
        compression_level: 3,
    }
}

impl DocModel {
    /// A project without tracks or metadata, at 480 PPQ and zstd level 3.
    pub fn new() -> (r: Self)
        ensures
            r@ == empty_model(),
    {
        let r = DocModel {
            meta: ProjectMeta {
                name: String::new(),
                artist: String::new(),
                description: String::new(),
                ppq: 480,
                compression_level: 3,
            },
            track_names: Vec::new(),
        };
        proof {
            assert(r@.track_names =~= Seq::<Seq<char>>::empty());
        }
        r
    }
}

/// Per-document editing state: the old values of fields being edited.
pub struct EditState {
    pub pending_edits: PendingEdits,
}

impl EditState {
    /// No field edit in progress.
    pub fn new() -> (r: Self)
        ensures
            r.pending_edits@ == Map::<u64, Seq<char>>::empty(),
    {
        EditState { pending_edits: PendingEdits::new() }
    }
}

/// One open project (a tab of the workspace).
pub struct Document {
    /// Session id of the document (names its autosave backup).
    pub doc_id: u64,
    /// Tab title.
    pub file_name: String,
    /// Where the project was loaded from or saved to; `None` for a new one.
    pub file_path: Option<String>,
    /// Number of notes in the project.
    pub note_count: u64,
    /// The mixer has changes that the undo stack does not track.
    pub mixer_dirty: bool,
    /// The project fields that undo and redo write.
    pub model: DocModel,
    pub history: UndoStack,
    pub edit: EditState,
}

impl Document {
    /// A new, empty, unsaved project.
    pub fn empty() -> (r: Self)
        ensures
            r.doc_id == 0,
            r.file_name@ == Seq::<char>::empty(),
            r.file_path is None,
            r.note_count == 0,
            !r.mixer_dirty,
            r.model@ == empty_model(),
            r.history.past() == Seq::<UndoEntry>::empty(),
            r.history.future() == Seq::<UndoEntry>::empty(),
            r.history.saved_len() == 0,
            r.history.has_saved_base(),
            r.edit.pending_edits@ == Map::<u64, Seq<char>>::empty(),
    {
        Document {
            doc_id: 0,
            file_name: String::new(),
            file_path: None,
            note_count: 0,
            mixer_dirty: false,
            model: DocModel::new(),
            history: UndoStack::new(),
            edit: EditState::new(),
        }
    }

    /// Records an undo entry for an edit that has been done.
    pub fn push_undo(&mut self, action: UndoAction, label: &str)
        ensures
            final(self).history.past() == pushed(old(self).history.past(), final(self).history.past().last()),
            final(self).history.past().last().action == action,
            final(self).history.past().last().label@ == label@,
            final(self).history.future() == Seq::<UndoEntry>::empty(),
            final(self).history.saved_len() == saved_len_after_push(
                old(self).history.past().len(),
                old(self).history.saved_len(),
            ),
            final(self).history.has_saved_base() == saved_base_after_push(
                old(self).history.past().len(),
                old(self).history.saved_len(),
                old(self).history.has_saved_base(),
            ),
            final(self).doc_id == old(self).doc_id,
            final(self).file_name == old(self).file_name,
            final(self).file_path == old(self).file_path,
            final(self).note_count == old(self).note_count,
            final(self).mixer_dirty == old(self).mixer_dirty,
            final(self).model@ == old(self).model@,
            final(self).edit.pending_edits@ == old(self).edit.pending_edits@,
    {
        let entry = UndoEntry { action, label: owned(label) };
        self.history.push(entry);
    }
}


/// `d1` is `d0` after undo: the newest undo entry moved to the redo list and
/// its old value written back.
pub open spec fn undone(d0: Document, d1: Document) -> bool {
    let e = d0.history.past().last();
    &&& d1.history.past() == d0.history.past().drop_last()
    &&& d1.history.future() == d0.history.future().push(e)
    &&& d1.history.saved_len() == d0.history.saved_len()
    &&& d1.history.has_saved_base() == d0.history.has_saved_base()
    &&& d1.model@ == spec_apply(d0.model@, e.action, false)
    &&& same_but_model_and_history(d0, d1)
}

/// `d1` is `d0` after redo: the next redo entry moved back to the undo list
/// and its new value written again.
pub open spec fn redone(d0: Document, d1: Document) -> bool {
    let e = d0.history.future().last();
    &&& d1.history.future() == d0.history.future().drop_last()
    &&& d1.history.past() == d0.history.past().push(e)
    &&& d1.history.saved_len() == d0.history.saved_len()
    &&& d1.history.has_saved_base() == d0.history.has_saved_base()
    &&& d1.model@ == spec_apply(d0.model@, e.action, true)
    &&& same_but_model_and_history(d0, d1)
}

/// `d1` is `d0` except for the model and the undo history.
pub open spec fn same_but_model_and_history(d0: Document, d1: Document) -> bool {
    &&& d1.doc_id == d0.doc_id
    &&& d1.file_name == d0.file_name
    &&& d1.file_path == d0.file_path
    &&& d1.note_count == d0.note_count
    &&& d1.mixer_dirty == d0.mixer_dirty
    &&& d1.edit.pending_edits@ == d0.edit.pending_edits@
}

impl Document {
    /// Undoes the newest edit; `false` when there is nothing to undo.
    pub fn undo(&mut self) -> (r: bool)
        ensures
            r == (old(self).history.past().len() > 0),
            r ==> undone(*old(self), *final(self)),
            !r ==> *final(self) == *old(self),
    {
        match self.history.take_undo() {
            None => false,
            Some(entry) => {
                entry.action.undo(self);
                self.history.put_redo(entry);
                true
            },
        }
    }

    /// Redoes the newest undone edit; `false` when there is nothing to redo.
    pub fn redo(&mut self) -> (r: bool)
        ensures
            r == (old(self).history.future().len() > 0),
            r ==> redone(*old(self), *final(self)),
            !r ==> *final(self) == *old(self),
    {
        match self.history.take_redo() {
            None => false,
            Some(entry) => {
                entry.action.redo(self);
                self.history.put_undo(entry);
                true
            },
        }
    }
}

/// Undo then redo gives the document back: the model as it was (when the
/// newest edit's value is in place, as after the edit itself) and both lists.
pub proof fn lemma_undo_then_redo(d0: Document, d1: Document, d2: Document)
    requires
        d0.history.past().len() > 0,
        holds_value(d0.model@, d0.history.past().last().action, true),
        undone(d0, d1),
        redone(d1, d2),
    ensures
        d2.model@ == d0.model@,
        d2.history.past() == d0.history.past(),
        d2.history.future() == d0.history.future(),
        d2.history.saved_len() == d0.history.saved_len(),
        d2.history.has_saved_base() == d0.history.has_saved_base(),
{
    lemma_apply_roundtrip(d0.model@, d0.history.past().last().action, true);
    assert(d2.history.past() =~= d0.history.past());
    assert(d2.history.future() =~= d0.history.future());
}

/// Redo then undo gives the document back, when the next redo entry's old
/// value is in place (as right after it was undone).
pub proof fn lemma_redo_then_undo(d0: Document, d1: Document, d2: Document)
    requires
        d0.history.future().len() > 0,
        holds_value(d0.model@, d0.history.future().last().action, false),
        redone(d0, d1),
        undone(d1, d2),
    ensures
        d2.model@ == d0.model@,
        d2.history.past() == d0.history.past(),
        d2.history.future() == d0.history.future(),
        d2.history.saved_len() == d0.history.saved_len(),
        d2.history.has_saved_base() == d0.history.has_saved_base(),
{
    lemma_apply_roundtrip(d0.model@, d0.history.future().last().action, false);
    assert(d2.history.past() =~= d0.history.past());
    assert(d2.history.future() =~= d0.history.future());
}

/// Undo writes back the old value, which the redo list's newest entry then
/// finds in place.
pub proof fn lemma_undo_leaves_old_value(d0: Document, d1: Document)
    requires
        d0.history.past().len() > 0,
        holds_value(d0.model@, d0.history.past().last().action, true),
        undone(d0, d1),
    ensures
        d1.history.future().last() == d0.history.past().last(),
        holds_value(d1.model@, d1.history.future().last().action, false),
{
    lemma_apply_roundtrip(d0.model@, d0.history.past().last().action, true);
}

} // verus!
