//! Undo stack, pending-edit tracking, and the commit helpers for text fields.

use vstd::prelude::*;
use std::collections::{HashMap, VecDeque};

pub mod apply;
pub mod commit;

verus! {

broadcast use vstd::std_specs::hash::group_hash_axioms;

/// Oldest entries are dropped once the undo stack holds this many.
pub const MAX_DEPTH: usize = 500;

/// A recorded edit of a document field (the old and the new value).
#[allow(inconsistent_fields)]
pub enum UndoAction {
    TrackName { track_idx: usize, old: String, new: String },
    ProjectName { old: String, new: String },
    ProjectArtist { old: String, new: String },
    ProjectDescription { old: String, new: String },
    /// `rescale`: the PPQ change also rescaled every tick of the project.
    ProjectPpq { old: u32, new: u32, rescale: bool },
    CompressionLevel { old: i32, new: i32 },
}

/// The undo list after recording `e`: the oldest entry is dropped when the
/// list already holds `MAX_DEPTH` entries.
pub open spec fn pushed(past: Seq<UndoEntry>, e: UndoEntry) -> Seq<UndoEntry> {
    (if past.len() >= MAX_DEPTH {
        past.drop_first()
    } else {
        past
    }).push(e)
}

/// The saved length after recording an entry: when the oldest entry is
/// dropped, the save point moves down with the entries.
pub open spec fn saved_len_after_push(past_len: nat, saved: nat) -> nat {
    if past_len >= MAX_DEPTH && saved > 0 {
        (saved - 1) as nat
    } else {
        saved
    }
}

/// Whether a saved base is left after recording an entry: a save point
/// before the dropped oldest entry can no longer be reached.
pub open spec fn saved_base_after_push(past_len: nat, saved: nat, base: bool) -> bool {
    base && !(past_len >= MAX_DEPTH && saved == 0)
}

/// A single entry on the undo/redo stack.
pub struct UndoEntry {
    pub action: UndoAction,
    pub label: String,
}

/// Per-document undo/redo stack.
pub struct UndoStack {
    past: VecDeque<UndoEntry>,
    future: Vec<UndoEntry>,
    /// Length of `past` at the last save.
    saved_past_len: usize,
    /// The document has an established saved base state: true for a fresh
    /// empty document, false after loading a file, true again after a save.
    has_saved_base: bool,
}

impl UndoStack {
    /// Entries that can be undone, oldest first.
    pub closed spec fn past(&self) -> Seq<UndoEntry> {
        self.past@
    }

    /// Entries that can be redone.
    pub closed spec fn future(&self) -> Seq<UndoEntry> {
        self.future@
    }

    /// Length of the undo list at the last save.
    pub closed spec fn saved_len(&self) -> nat {
        self.saved_past_len as nat
    }

    /// Whether a saved base state exists.
    pub closed spec fn has_saved_base(&self) -> bool {
        self.has_saved_base
    }

    /// The stack never holds more than `MAX_DEPTH` entries, undo and redo
    /// together (redo entries are undone ones).
    #[verifier::type_invariant]
    closed spec fn wf(&self) -> bool {
        self.past@.len() + self.future@.len() <= MAX_DEPTH
    }

    /// Unsaved changes: edits since the last save, or a loaded file never saved.
    pub open spec fn spec_is_dirty(&self) -> bool {
        self.past().len() != self.saved_len() || !self.has_saved_base()
    }

    /// An empty stack; a fresh document may be closed without saving.
    pub fn new() -> (r: Self)
        ensures
            r.past() == Seq::<UndoEntry>::empty(),
            r.future() == Seq::<UndoEntry>::empty(),
            r.saved_len() == 0,
            r.has_saved_base(),
    {
        UndoStack { past: VecDeque::new(), future: Vec::new(), saved_past_len: 0, has_saved_base: true }
    }

    /// Whether the document has unsaved changes.
    pub fn is_dirty(&self) -> (r: bool)
        ensures
            r == self.spec_is_dirty(),
    {
        self.past.len() != self.saved_past_len || !self.has_saved_base
    }

    /// Marks the current state as saved.
    pub fn mark_saved(&mut self)
        ensures
            final(self).past() == old(self).past(),
            final(self).future() == old(self).future(),
            final(self).saved_len() == old(self).past().len(),
            final(self).has_saved_base(),
    {
        proof {
            use_type_invariant(&*self);
        }
        self.saved_past_len = self.past.len();
        self.has_saved_base = true;
    }

    /// Marks the document as loaded from a file: closing it without a save
    /// must ask the user.
    pub fn mark_loaded(&mut self)
        ensures
            final(self).past() == old(self).past(),
            final(self).future() == old(self).future(),
            final(self).saved_len() == 0,
            !final(self).has_saved_base(),
    {
        proof {
            use_type_invariant(&*self);
        }
        self.saved_past_len = 0;
        self.has_saved_base = false;
    }

    /// Records an undo entry (after the edit is done); drops the oldest entry
    /// when the stack is full (the save point moves down with it), and clears
    /// the redo list.
    pub fn push(&mut self, entry: UndoEntry)
        ensures
            final(self).past() == pushed(old(self).past(), entry),
            final(self).past().len() <= MAX_DEPTH,
            final(self).future() == Seq::<UndoEntry>::empty(),
            final(self).saved_len() == saved_len_after_push(old(self).past().len(), old(self).saved_len()),
            final(self).has_saved_base() == saved_base_after_push(
                old(self).past().len(),
                old(self).saved_len(),
                old(self).has_saved_base(),
            ),
    {
        proof {
            use_type_invariant(&*self);
        }
        let mut past: VecDeque<UndoEntry> = VecDeque::new();
        std::mem::swap(&mut past, &mut self.past);
        if past.len() >= MAX_DEPTH {
            past.pop_front();
            if self.saved_past_len > 0 {
                self.saved_past_len = self.saved_past_len - 1;
            } else {
                self.has_saved_base = false;
            }
        }
        past.push_back(entry);
        self.future = Vec::new();
        self.past = past;
    }

    /// Takes the newest entry to undo.
    pub(crate) fn take_undo(&mut self) -> (r: Option<UndoEntry>)
        ensures
            old(self).past().len() == 0 ==> r is None && *final(self) == *old(self),
            old(self).past().len() > 0 ==> {
                &&& r == Some(old(self).past().last())
                &&& final(self).past() == old(self).past().drop_last()
                &&& final(self).future() == old(self).future()
                &&& final(self).saved_len() == old(self).saved_len()
                &&& final(self).has_saved_base() == old(self).has_saved_base()
                &&& final(self).past().len() + final(self).future().len() < MAX_DEPTH
            },
    {
        proof {
            use_type_invariant(&*self);
        }
        if self.past.len() == 0 {
            return None;
        }
        let mut past: VecDeque<UndoEntry> = VecDeque::new();
        std::mem::swap(&mut past, &mut self.past);
        let r = past.pop_back();
        self.past = past;
        r
    }

    /// Files an undone entry as the next one to redo.
    pub(crate) fn put_redo(&mut self, entry: UndoEntry)
        requires
            old(self).past().len() + old(self).future().len() < MAX_DEPTH,
        ensures
            final(self).past() == old(self).past(),
            final(self).future() == old(self).future().push(entry),
            final(self).saved_len() == old(self).saved_len(),
            final(self).has_saved_base() == old(self).has_saved_base(),
    {
        let mut future: Vec<UndoEntry> = Vec::new();
        std::mem::swap(&mut future, &mut self.future);
        future.push(entry);
        self.future = future;
    }

    /// Takes the next entry to redo.
    pub(crate) fn take_redo(&mut self) -> (r: Option<UndoEntry>)
        ensures
            old(self).future().len() == 0 ==> r is None && *final(self) == *old(self),
            old(self).future().len() > 0 ==> {
                &&& r == Some(old(self).future().last())
                &&& final(self).future() == old(self).future().drop_last()
                &&& final(self).past() == old(self).past()
                &&& final(self).saved_len() == old(self).saved_len()
                &&& final(self).has_saved_base() == old(self).has_saved_base()
                &&& final(self).past().len() + final(self).future().len() < MAX_DEPTH
            },
    {
        proof {
            use_type_invariant(&*self);
        }
        if self.future.len() == 0 {
            return None;
        }
        let mut future: Vec<UndoEntry> = Vec::new();
        std::mem::swap(&mut future, &mut self.future);
        let r = future.pop();
        self.future = future;
        r
    }

    /// Files a redone entry back as the newest one to undo.
    pub(crate) fn put_undo(&mut self, entry: UndoEntry)
        requires
            old(self).past().len() + old(self).future().len() < MAX_DEPTH,
        ensures
            final(self).past() == old(self).past().push(entry),
            final(self).future() == old(self).future(),
            final(self).saved_len() == old(self).saved_len(),
            final(self).has_saved_base() == old(self).has_saved_base(),
    {
        let mut past: VecDeque<UndoEntry> = VecDeque::new();
        std::mem::swap(&mut past, &mut self.past);
        past.push_back(entry);
        self.past = past;
    }

    /// Whether there is an entry to undo.
    pub fn can_undo(&self) -> (r: bool)
        ensures
            r == (self.past().len() > 0),
    {
        self.past.len() != 0
    }

    /// Number of entries in the undo list.
    pub fn past_len(&self) -> (r: usize)
        ensures
            r == self.past().len(),
            r <= MAX_DEPTH,
    {
        proof {
            use_type_invariant(self);
        }
        self.past.len()
    }

    /// Number of entries in the redo list.
    pub fn future_len(&self) -> (r: usize)
        ensures
            r == self.future().len(),
    {
        self.future.len()
    }

    /// Whether there is an entry to redo.
    pub fn can_redo(&self) -> (r: bool)
        ensures
            r == (self.future().len() > 0),
    {
        self.future.len() != 0
    }

    /// Empties both lists and returns to the fresh-document state.
    pub fn clear(&mut self)
        ensures
            final(self).past() == Seq::<UndoEntry>::empty(),
            final(self).future() == Seq::<UndoEntry>::empty(),
            final(self).saved_len() == 0,
            final(self).has_saved_base(),
    {
        proof {
            use_type_invariant(&*self);
        }
        self.future = Vec::new();
        self.past = VecDeque::new();
        self.saved_past_len = 0;
        self.has_saved_base = true;
    }
}

impl Default for UndoStack {
    fn default() -> (r: Self)
        ensures
            r.past() == Seq::<UndoEntry>::empty(),
            r.future() == Seq::<UndoEntry>::empty(),
            r.saved_len() == 0,
            r.has_saved_base(),
    {
        Self::new()
    }
}

/// Recording an entry keeps the newest entries: the new list is the old list
/// with the entry added, cut to its last `MAX_DEPTH` entries.
pub proof fn lemma_push_keeps_newest(past: Seq<UndoEntry>, e: UndoEntry)
    requires
        past.len() <= MAX_DEPTH,
    ensures
        pushed(past, e).len() == if past.len() < MAX_DEPTH { past.len() + 1 } else { MAX_DEPTH as nat },
        pushed(past, e).is_suffix_of(past.push(e)),
{
    let r = pushed(past, e);
    let full = past.push(e);
    assert(r =~= full.subrange(full.len() - r.len(), full.len() as int));
}

/// An edit recorded right after a save makes the document dirty again, also
/// when the undo list was full.
pub proof fn lemma_edit_after_save_is_dirty(h0: UndoStack, h1: UndoStack, e: UndoEntry)
    requires
        !h0.spec_is_dirty(),
        h0.past().len() <= MAX_DEPTH,
        h1.past() == pushed(h0.past(), e),
        h1.saved_len() == saved_len_after_push(h0.past().len(), h0.saved_len()),
        h1.has_saved_base() == saved_base_after_push(h0.past().len(), h0.saved_len(), h0.has_saved_base()),
    ensures
        h1.spec_is_dirty(),
{
}

/// Recording an edit makes undo possible and redo impossible; the entry is
/// the last one to undo.
pub proof fn lemma_push_enables_undo_only(h0: UndoStack, h1: UndoStack, e: UndoEntry)
    requires
        h1.past() == pushed(h0.past(), e),
        h1.future() == Seq::<UndoEntry>::empty(),
    ensures
        h1.past().len() > 0,
        h1.future().len() == 0,
        h1.past().last() == e,
{
}

/// Old values of text fields whose edit is in progress, by field id.
pub struct PendingEdits {
    map: HashMap<u64, String>,
}

impl View for PendingEdits {
    type V = Map<u64, Seq<char>>;

    closed spec fn view(&self) -> Map<u64, Seq<char>> {
        self.map@.map_values(|s: String| s@)
    }
}

impl PendingEdits {
    /// No edit in progress.
    pub fn new() -> (r: Self)
        ensures
            r@ == Map::<u64, Seq<char>>::empty(),
    {
        let r = PendingEdits { map: HashMap::new() };
        proof {
            assert(r@ =~= Map::<u64, Seq<char>>::empty());
        }
        r
    }

    /// Whether an edit of field `id` is in progress.
    pub fn has(&self, id: u64) -> (r: bool)
        ensures
            r == self@.contains_key(id),
    {
        self.map.contains_key(&id)
    }

    /// Saves the old value before a text edit begins.
    pub fn begin(&mut self, id: u64, old_value: &str)
        ensures
            final(self)@ == old(self)@.insert(id, old_value@),
    {
        self.map.insert(id, String::from_str(old_value));
        proof {
            assert(self@ =~= old(self)@.insert(id, old_value@));
        }
    }

    /// The saved old value, left in place.
    pub fn get(&self, id: u64) -> (r: Option<&str>)
        ensures
            match r {
                Some(s) => self@.contains_key(id) && s@ == self@[id],
                None => !self@.contains_key(id),
            },
    {
        match self.map.get(&id) {
            Some(s) => Some(s.as_str()),
            None => None,
        }
    }

    /// Removes and returns the saved old value.
    pub fn take(&mut self, id: u64) -> (r: Option<String>)
        ensures
            final(self)@ == old(self)@.remove(id),
            match r {
                Some(s) => old(self)@.contains_key(id) && s@ == old(self)@[id],
                None => !old(self)@.contains_key(id),
            },
    {
        let r = self.map.remove(&id);
        proof {
            assert(self@ =~= old(self)@.remove(id));
        }
        r
    }
}

/// Reading a field's pending value after `begin` gives the value saved then,
/// and taking it ends the edit.
pub proof fn lemma_pending_read_after_begin(m: Map<u64, Seq<char>>, id: u64, v: Seq<char>)
    ensures
        m.insert(id, v).contains_key(id),
        m.insert(id, v)[id] == v,
        !m.insert(id, v).remove(id).contains_key(id),
{
}

impl Default for PendingEdits {
    fn default() -> (r: Self)
        ensures
            r@ == Map::<u64, Seq<char>>::empty(),
    {
        Self::new()
    }
}

} // verus!
