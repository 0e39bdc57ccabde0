//! The decisions of the clipboard shared between editor windows.
//!
//! A copy keeps its data in memory and is written in the background to a
//! temporary file; once written, a reference text naming it (its id) is put on
//! the system clipboard. A paste uses the in-memory data when the system
//! clipboard refers to it, loads the file of another window's reference, and
//! drops the in-memory data when the system clipboard holds other text. The
//! caller does the writing, reading and parsing of the reference text.

use vstd::prelude::*;
use crate::audio_settings::opt_text;
use crate::text::{owned, str_eq};

verus! {

/// Clipboard bookkeeping.
pub struct ClipboardSyncState {
    /// The id of the copy being written in the background (the latest copy).
    pub pending_id: Option<String>,
    /// The id that the in-memory data stands for (written by this window or
    /// loaded from another's).
    pub active_id: Option<String>,
    /// The in-memory data is newer than the system clipboard (its export has
    /// not succeeded yet, or failed).
    pub local_newer: bool,
}

/// What a paste uses.
pub enum PasteStep {
    /// The in-memory data, as it is.
    KeepInternal,
    /// The in-memory data, if there is any.
    InternalIfNotEmpty,
    /// Nothing: the in-memory data is dropped (the system clipboard holds
    /// other content).
    Invalidate,
    /// The data of this id, loaded from its file (then `finish_load`).
    LoadFile(String),
}

impl ClipboardSyncState {
    /// No copy made yet.
    pub fn new() -> (r: Self)
        ensures
            r.pending_id is None,
            r.active_id is None,
            !r.local_newer,
    {
        ClipboardSyncState { pending_id: None, active_id: None, local_newer: false }
    }

    /// A copy of non-empty data was made and its export, under `id`, started.
    pub fn start_export(&mut self, id: String)
        ensures
            opt_text(final(self).pending_id) == Some(id@),
            final(self).local_newer,
            opt_text(final(self).active_id) == opt_text(old(self).active_id),
    {
        self.pending_id = Some(id);
        self.local_newer = true;
    }

    /// An export finished: `None` when it belongs to a copy that a later one
    /// replaced (ignored); otherwise whether the reference is on the system
    /// clipboard (`written`: the file was written and the reference set), in
    /// which case the in-memory data is that id's and no longer newer.
    pub fn export_finished(&mut self, id: &str, written: bool) -> (r: Option<bool>)
        ensures
            opt_text(old(self).pending_id) != Some(id@) ==> {
                &&& r is None
                &&& opt_text(final(self).pending_id) == opt_text(old(self).pending_id)
                &&& opt_text(final(self).active_id) == opt_text(old(self).active_id)
                &&& final(self).local_newer == old(self).local_newer
            },
            opt_text(old(self).pending_id) == Some(id@) ==> {
                &&& r == Some(written)
                &&& final(self).pending_id is None
                &&& written ==> opt_text(final(self).active_id) == Some(id@) && !final(self).local_newer
                &&& !written ==> opt_text(final(self).active_id) == opt_text(old(self).active_id)
                    && final(self).local_newer == old(self).local_newer
            },
    {
        let current = match &self.pending_id {
            Some(p) => str_eq(p.as_str(), id),
            None => false,
        };
        if !current {
            return None;
        }
        self.pending_id = None;
        if written {
            self.active_id = Some(owned(id));
            self.local_newer = false;
        }
        Some(written)
    }

    /// Decides what a paste uses. `system` is what the system clipboard
    /// holds: `None` when there is no system clipboard or no text can be read
    /// from it, `Some(None)` for text that is no reference, `Some(Some(id))`
    /// for a reference.
    pub fn resolve_paste(&mut self, system: Option<Option<String>>) -> (r: PasteStep)
        ensures
            old(self).pending_id is Some ==> r is KeepInternal && final(self).local_newer == old(
                self,
            ).local_newer && opt_text(final(self).active_id) == opt_text(old(self).active_id),
            old(self).pending_id is None ==> match system {
                None => r is KeepInternal && final(self).local_newer == old(self).local_newer && opt_text(
                    final(self).active_id,
                ) == opt_text(old(self).active_id),
                Some(None) => if old(self).local_newer {
                    r is KeepInternal && final(self).local_newer && opt_text(final(self).active_id)
                        == opt_text(old(self).active_id)
                } else {
                    r is Invalidate && !final(self).local_newer && final(self).active_id is None
                },
                Some(Some(id)) => {
                    &&& !final(self).local_newer
                    &&& opt_text(final(self).active_id) == opt_text(old(self).active_id)
                    &&& if opt_text(old(self).active_id) == Some(id@) {
                        r is InternalIfNotEmpty
                    } else {
                        r matches PasteStep::LoadFile(f) && f@ == id@
                    }
                },
            },
            opt_text(final(self).pending_id) == opt_text(old(self).pending_id),
    {
        if self.pending_id.is_some() {
            return PasteStep::KeepInternal;
        }
        match system {
            None => PasteStep::KeepInternal,
            Some(None) => {
                if self.local_newer {
                    PasteStep::KeepInternal
                } else {
                    self.active_id = None;
                    PasteStep::Invalidate
                }
            },
            Some(Some(id)) => {
                self.local_newer = false;
                let same = match &self.active_id {
                    Some(a) => str_eq(a.as_str(), id.as_str()),
                    None => false,
                };
                if same {
                    PasteStep::InternalIfNotEmpty
                } else {
                    PasteStep::LoadFile(id)
                }
            },
        }
    }

    /// The file of `id` was loaded (`loaded`), or could not be read: the
    /// in-memory data is then that id's, or dropped.
    pub fn finish_load(&mut self, id: &str, loaded: bool)
        ensures
            loaded ==> opt_text(final(self).active_id) == Some(id@),
            !loaded ==> final(self).active_id is None,
            opt_text(final(self).pending_id) == opt_text(old(self).pending_id),
            final(self).local_newer == old(self).local_newer,
    {
        if loaded {
            self.active_id = Some(owned(id));
        } else {
            self.active_id = None;
        }
    }
}

} // verus!
