//! Multi-document workspace: the stack of open documents and the active tab.

use vstd::prelude::*;
use crate::document::Document;
use crate::history::UndoEntry;

pub mod reorder;

use reorder::{apply_reorder_noclone, lemma_plan_order_is_permutation, plan_order, spec_plan_order};

verus! {

/// The documents and the active tab.
pub struct Workspace {
    pub documents: Vec<Document>,
    pub active_doc: Option<usize>,
    pub prev_active_doc: Option<usize>,
}

/// `order` is `0, 1, ..., len - 1`.
pub open spec fn is_identity(order: Seq<usize>, len: nat) -> bool {
    &&& order.len() == len
    &&& forall|k: int| 0 <= k < len ==> #[trigger] order[k] == k
}

/// The active index after removing the document at `index` from a list of
/// `len` documents: later tabs shift down, and closing the active tab
/// activates the tab now at its place (the last one if it was last), or none
/// when no document is left.
pub open spec fn active_after_remove(active: Option<usize>, index: nat, len: nat) -> Option<usize> {
    match active {
        Some(a) => if index < a {
            Some((a - 1) as usize)
        } else if index == a {
            if len <= 1 {
                None
            } else if a <= len - 2 {
                Some(a)
            } else {
                Some((len - 2) as usize)
            }
        } else {
            Some(a)
        },
        None => None,
    }
}

/// Dragging a tab keeps the same document active: the document that was
/// active sits at exactly one new position.
pub proof fn lemma_reorder_keeps_active_document(docs: Seq<Document>, from: usize, insert_at: usize, a: usize)
    requires
        docs.len() <= usize::MAX,
        from < docs.len(),
        a < docs.len(),
    ensures
        ({
            let order = spec_plan_order(docs.len(), seq![from], insert_at as nat);
            &&& exists|k: int| 0 <= k < order.len() && order[k] == a
            &&& forall|k: int, l: int|
                0 <= k < order.len() && 0 <= l < order.len() && order[k] == a && order[l] == a ==> k == l
            &&& forall|k: int|
                0 <= k < order.len() && order[k] == a ==> order.map_values(|j: usize| docs[j as int])[k]
                    == docs[a as int]
        }),
{
    let sel = seq![from];
    assert(reorder::valid_selection(docs.len(), sel));
    lemma_plan_order_is_permutation(docs.len(), sel, insert_at as nat);
    let order = spec_plan_order(docs.len(), sel, insert_at as nat);
    assert(order.contains(a));
}

/// Closing another tab keeps the same document active; closing the active tab
/// leaves a valid active index (or none when no document is left).
pub proof fn lemma_close_keeps_active_document(docs: Seq<Document>, index: usize, a: usize)
    requires
        index < docs.len(),
        a < docs.len(),
    ensures
        index != a ==> (active_after_remove(Some(a), index as nat, docs.len()) matches Some(k) && k
            < docs.len() - 1 && docs.remove(index as int)[k as int] == docs[a as int]),
        index == a ==> match active_after_remove(Some(a), index as nat, docs.len()) {
            Some(k) => k < docs.len() - 1,
            None => docs.len() == 1,
        },
{
}

/// Closing the active tab, with tabs left, activates the tab that moved into
/// its place, or the tab before it when it was the last one: the new active
/// index is `min(a, new_len - 1)`.
pub proof fn lemma_close_active_selects_neighbour(docs: Seq<Document>, a: usize)
    requires
        a < docs.len(),
        docs.len() > 1,
    ensures
        active_after_remove(Some(a), a as nat, docs.len()) matches Some(k) && {
            &&& k as int == if a < docs.len() - 1 { a as int } else { docs.len() - 2 }
            &&& k < docs.len() - 1
            &&& docs.remove(a as int)[k as int] == if a + 1 < docs.len() {
                docs[a + 1]
            } else {
                docs[a - 1]
            }
        },
{
}

impl Workspace {
    /// The single tab is the untouched Untitled project of a fresh start:
    /// active, no path, no notes, no unsaved change.
    pub open spec fn initial_untitled_untouched(&self) -> bool {
        &&& self.documents@.len() == 1
        &&& self.active_doc == Some(0usize)
        &&& self.documents@[0].file_path is None
        &&& self.documents@[0].note_count == 0
        &&& !self.documents@[0].history.spec_is_dirty()
        &&& !self.documents@[0].mixer_dirty
    }

    /// One new empty document, active.
    pub fn new() -> (r: Self)
        ensures
            r.documents@.len() == 1,
            r.documents@[0].file_path is None,
            r.documents@[0].note_count == 0,
            !r.documents@[0].mixer_dirty,
            r.documents@[0].history.past() == Seq::<UndoEntry>::empty(),
            r.documents@[0].history.has_saved_base(),
            r.active_doc == Some(0usize),
            r.prev_active_doc == Some(0usize),
    {
        let mut documents: Vec<Document> = Vec::new();
        documents.push(Document::empty());
        Workspace { documents, active_doc: Some(0), prev_active_doc: Some(0) }
    }

    /// Whether opening a file should replace the current tab instead of adding
    /// one: only when the single tab is the untouched Untitled project of a
    /// fresh start (active, no path, no notes, no unsaved change).
    pub fn should_replace_initial_untitled(&self) -> (r: bool)
        ensures
            r == self.initial_untitled_untouched(),
    {
        if self.documents.len() != 1 {
            return false;
        }
        match self.active_doc {
            Some(a) => {
                if a != 0 {
                    return false;
                }
            },
            None => {
                return false;
            },
        }
        let doc = &self.documents[0];
        doc.file_path.is_none() && doc.note_count == 0 && !doc.history.is_dirty() && !doc.mixer_dirty
    }

    /// Adds an empty project and makes it the active tab; returns its index.
    pub fn new_project(&mut self) -> (idx: usize)
        ensures
            final(self).documents@.len() == old(self).documents@.len() + 1,
            final(self).documents@.take(old(self).documents@.len() as int) == old(self).documents@,
            idx == old(self).documents@.len(),
            final(self).documents@[idx as int].file_path is None,
            final(self).documents@[idx as int].note_count == 0,
            final(self).documents@[idx as int].history.past() == Seq::<UndoEntry>::empty(),
            final(self).active_doc == Some(idx),
            final(self).prev_active_doc == old(self).prev_active_doc,
    {
        self.documents.push(Document::empty());
        let idx = self.documents.len() - 1;
        self.active_doc = Some(idx);
        proof {
            assert(self.documents@.take(old(self).documents@.len() as int) =~= old(self).documents@);
        }
        idx
    }

    /// Puts a document that finished loading into the workspace: it replaces
    /// the untouched initial Untitled tab, or else becomes a new last tab; it
    /// is active either way. Returns its index.
    pub fn place_loaded_document(&mut self, doc: Document) -> (idx: usize)
        ensures
            old(self).initial_untitled_untouched() ==> {
                &&& idx == 0
                &&& final(self).documents@ == old(self).documents@.update(0, doc)
            },
            !old(self).initial_untitled_untouched() ==> {
                &&& idx == old(self).documents@.len()
                &&& final(self).documents@ == old(self).documents@.push(doc)
            },
            final(self).active_doc == Some(idx),
            final(self).prev_active_doc == old(self).prev_active_doc,
    {
        if self.should_replace_initial_untitled() {
            self.documents[0] = doc;
            self.active_doc = Some(0);
            0
        } else {
            let idx = self.documents.len();
            self.documents.push(doc);
            self.active_doc = Some(idx);
            idx
        }
    }

    /// Tab drag: moves the document at `from` to position `insert_at` of the
    /// list without it. The active tab follows its document; the previous
    /// active index is aligned with it (only indices changed). Returns the
    /// active index.
    pub fn reorder_tab(&mut self, from: usize, insert_at: usize) -> (r: Option<usize>)
        ensures
            ({
                let len = old(self).documents@.len();
                let order = spec_plan_order(len, seq![from], insert_at as nat);
                if from >= len || is_identity(order, len) {
                    &&& final(self).documents@ == old(self).documents@
                    &&& final(self).active_doc == old(self).active_doc
                    &&& final(self).prev_active_doc == old(self).prev_active_doc
                } else {
                    &&& final(self).documents@ == order.map_values(|j: usize| old(self).documents@[j as int])
                    &&& match old(self).active_doc {
                        Some(a) => match final(self).active_doc {
                            Some(k) => k < len && order[k as int] == a,
                            None => a >= len,
                        },
                        None => final(self).active_doc is None,
                    }
                    &&& final(self).prev_active_doc == final(self).active_doc
                }
            }),
            r == final(self).active_doc,
    {
        let len = self.documents.len();
        if from >= len {
            return self.active_doc;
        }
        let sel: [usize; 1] = [from];
        proof {
            assert(sel@ =~= seq![from]);
            assert(reorder::valid_selection(len as nat, sel@));
            lemma_plan_order_is_permutation(len as nat, sel@, insert_at as nat);
        }
        let order = plan_order(len, &sel, insert_at);
        let mut same = true;
        let mut i: usize = 0;
        while i < order.len()
            invariant
                order@.len() == len,
                i <= len,
                same == (forall|k: int| 0 <= k < i ==> #[trigger] order@[k] == k),
            decreases len - i,
        {
            if order[i] != i {
                same = false;
            }
            i += 1;
        }
        if same {
            return self.active_doc;
        }
        let old_active = self.active_doc;
        apply_reorder_noclone(&mut self.documents, &sel, insert_at);
        match old_active {
            Some(a) => {
                let mut pos: Option<usize> = None;
                let mut k: usize = 0;
                while k < order.len()
                    invariant
                        order@.len() == len,
                        k <= len,
                        match pos {
                            Some(p) => p < len && order@[p as int] == a,
                            None => forall|t: int| 0 <= t < k ==> #[trigger] order@[t] != a,
                        },
                    decreases len - k,
                {
                    if pos.is_none() && order[k] == a {
                        pos = Some(k);
                    }
                    k += 1;
                }
                proof {
                    if pos is None && a < len {
                        assert(order@.contains(a));
                    }
                    if pos is Some {
                        assert(a < len);
                    }
                }
                self.active_doc = pos;
            },
            None => {},
        }
        self.prev_active_doc = self.active_doc;
        self.active_doc
    }

    /// Removes the document at `index` and returns it; the active index is
    /// corrected (see `active_after_remove`).
    pub fn take_document(&mut self, index: usize) -> (r: Option<Document>)
        ensures
            index >= old(self).documents@.len() ==> {
                &&& r is None
                &&& final(self).documents@ == old(self).documents@
                &&& final(self).active_doc == old(self).active_doc
            },
            index < old(self).documents@.len() ==> {
                &&& r == Some(old(self).documents@[index as int])
                &&& final(self).documents@ == old(self).documents@.remove(index as int)
                &&& final(self).active_doc == active_after_remove(
                    old(self).active_doc,
                    index as nat,
                    old(self).documents@.len(),
                )
            },
            final(self).prev_active_doc == old(self).prev_active_doc,
    {
        if index >= self.documents.len() {
            return None;
        }
        let doc = self.documents.remove(index);
        match self.active_doc {
            Some(active) => {
                if index < active {
                    self.active_doc = Some(active - 1);
                } else if index == active {
                    self.active_doc = if self.documents.len() == 0 {
                        None
                    } else if active <= self.documents.len() - 1 {
                        Some(active)
                    } else {
                        Some(self.documents.len() - 1)
                    };
                }
            },
            None => {},
        }
        Some(doc)
    }

    /// Closes the document at `index` (same as `take_document`).
    pub fn close_document(&mut self, index: usize) -> (r: Option<Document>)
        ensures
            index >= old(self).documents@.len() ==> {
                &&& r is None
                &&& final(self).documents@ == old(self).documents@
                &&& final(self).active_doc == old(self).active_doc
            },
            index < old(self).documents@.len() ==> {
                &&& r == Some(old(self).documents@[index as int])
                &&& final(self).documents@ == old(self).documents@.remove(index as int)
                &&& final(self).active_doc == active_after_remove(
                    old(self).active_doc,
                    index as nat,
                    old(self).documents@.len(),
                )
            },
            final(self).prev_active_doc == old(self).prev_active_doc,
    {
        self.take_document(index)
    }

    /// Mutable access to the active document, if the active index names one.
    pub fn active_doc_mut(&mut self) -> (r: Option<&mut Document>)
        ensures
            match old(self).active_doc {
                Some(i) if i < old(self).documents@.len() => {
                    &&& r matches Some(d)
                    &&& *d == old(self).documents@[i as int]
                    &&& final(self).documents@ == old(self).documents@.update(i as int, *final(d))
                    &&& final(self).active_doc == old(self).active_doc
                    &&& final(self).prev_active_doc == old(self).prev_active_doc
                },
                _ => r is None && *final(self) == *old(self),
            },
    {
        match self.active_doc {
            Some(i) => {
                if i < self.documents.len() {
                    Some(&mut self.documents[i])
                } else {
                    None
                }
            },
            None => None,
        }
    }

    /// The active document, if the active index names one.
    pub fn active_doc_ref(&self) -> (r: Option<&Document>)
        ensures
            match self.active_doc {
                Some(i) if i < self.documents@.len() => r == Some(&self.documents@[i as int]),
                _ => r is None,
            },
    {
        match self.active_doc {
            Some(i) => {
                if i < self.documents.len() {
                    Some(&self.documents[i])
                } else {
                    None
                }
            },
            None => None,
        }
    }
}

impl Default for Workspace {
    fn default() -> (r: Self)
        ensures
            r.documents@.len() == 1,
            r.documents@[0].file_path is None,
            r.documents@[0].note_count == 0,
            r.active_doc == Some(0usize),
            r.prev_active_doc == Some(0usize),
    {
        Self::new()
    }
}

} // verus!
