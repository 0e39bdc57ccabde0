//! Commit helpers for text-field edits: compare the value saved when the edit
//! began with the new one and record an undo entry when they differ.

use vstd::prelude::*;
use crate::document::Document;
use crate::history::{pushed, saved_base_after_push, saved_len_after_push, UndoAction, UndoEntry};
use crate::text::{owned, parse_i32, parse_u32, spec_parse_i32, spec_parse_u32, str_eq};

verus! {

/// `d1` is `d0` with field `id` no longer pending and every other part but the
/// undo history unchanged.
pub open spec fn pending_taken(d0: Document, d1: Document, id: u64) -> bool {
    &&& d1.edit.pending_edits@ == d0.edit.pending_edits@.remove(id)
    &&& d1.doc_id == d0.doc_id
    &&& d1.file_name == d0.file_name
    &&& d1.file_path == d0.file_path
    &&& d1.note_count == d0.note_count
    &&& d1.mixer_dirty == d0.mixer_dirty
    &&& d1.model@ == d0.model@
}

/// `d1`'s history is `d0`'s with one more entry, labelled `label`, and an
/// empty redo list.
pub open spec fn recorded(d0: Document, d1: Document, label: Seq<char>) -> bool {
    &&& d1.history.past() == pushed(d0.history.past(), d1.history.past().last())
    &&& d1.history.future() == Seq::<UndoEntry>::empty()
    &&& d1.history.saved_len() == saved_len_after_push(d0.history.past().len(), d0.history.saved_len())
    &&& d1.history.has_saved_base() == saved_base_after_push(
        d0.history.past().len(),
        d0.history.saved_len(),
        d0.history.has_saved_base(),
    )
    &&& d1.history.past().last().label@ == label
}

/// The saved old text of field `id`, when an edit of it is in progress.
pub open spec fn pending_text(d: Document, id: u64) -> Option<Seq<char>> {
    if d.edit.pending_edits@.contains_key(id) {
        Some(d.edit.pending_edits@[id])
    } else {
        None
    }
}

/// Begins tracking a text field keyed by `id`: saves its old value.
pub fn begin_edit(pending: &mut crate::history::PendingEdits, id: u64, old_value: &str)
    ensures
        final(pending)@ == old(pending)@.insert(id, old_value@),
{
    pending.begin(id, old_value);
}

/// Takes the saved old text of field `id`, if any.
fn take_pending(doc: &mut Document, id: u64) -> (r: Option<String>)
    ensures
        pending_taken(*old(doc), *final(doc), id),
        final(doc).history == old(doc).history,
        match r {
            Some(s) => pending_text(*old(doc), id) == Some(s@),
            None => pending_text(*old(doc), id) is None,
        },
{
    doc.edit.pending_edits.take(id)
}

/// Commits a track-name edit: records `TrackName` when the name changed.
pub fn commit_track_name(doc: &mut Document, id: u64, track_idx: usize, new_name: &str)
    ensures
        pending_taken(*old(doc), *final(doc), id),
        match pending_text(*old(doc), id) {
            Some(o) if o != new_name@ => {
                &&& recorded(*old(doc), *final(doc), "Edit track name"@)
                &&& final(doc).history.past().last().action matches UndoAction::TrackName { track_idx: t, old, new }
                &&& t == track_idx && old@ == o && new@ == new_name@
            },
            _ => final(doc).history == old(doc).history,
        },
{
    let old_str = match take_pending(doc, id) {
        Some(s) => s,
        None => return ,
    };
    if str_eq(old_str.as_str(), new_name) {
        return ;
    }
    let action = UndoAction::TrackName { track_idx, old: old_str, new: owned(new_name) };
    doc.push_undo(action, "Edit track name");
}

/// Commits a project-name edit.
pub fn commit_project_name(doc: &mut Document, id: u64, new_value: &str)
    ensures
        pending_taken(*old(doc), *final(doc), id),
        match pending_text(*old(doc), id) {
            Some(o) if o != new_value@ => {
                &&& recorded(*old(doc), *final(doc), "Edit project name"@)
                &&& final(doc).history.past().last().action matches UndoAction::ProjectName { old, new }
                &&& old@ == o && new@ == new_value@
            },
            _ => final(doc).history == old(doc).history,
        },
{
    let old_str = match take_pending(doc, id) {
        Some(s) => s,
        None => return ,
    };
    if str_eq(old_str.as_str(), new_value) {
        return ;
    }
    let action = UndoAction::ProjectName { old: old_str, new: owned(new_value) };
    doc.push_undo(action, "Edit project name");
}

/// Commits an artist edit.
pub fn commit_artist(doc: &mut Document, id: u64, new_value: &str)
    ensures
        pending_taken(*old(doc), *final(doc), id),
        match pending_text(*old(doc), id) {
            Some(o) if o != new_value@ => {
                &&& recorded(*old(doc), *final(doc), "Edit artist"@)
                &&& final(doc).history.past().last().action matches UndoAction::ProjectArtist { old, new }
                &&& old@ == o && new@ == new_value@
            },
            _ => final(doc).history == old(doc).history,
        },
{
    let old_str = match take_pending(doc, id) {
        Some(s) => s,
        None => return ,
    };
    if str_eq(old_str.as_str(), new_value) {
        return ;
    }
    let action = UndoAction::ProjectArtist { old: old_str, new: owned(new_value) };
    doc.push_undo(action, "Edit artist");
}

/// Commits a description edit.
pub fn commit_description(doc: &mut Document, id: u64, new_value: &str)
    ensures
        pending_taken(*old(doc), *final(doc), id),
        match pending_text(*old(doc), id) {
            Some(o) if o != new_value@ => {
                &&& recorded(*old(doc), *final(doc), "Edit description"@)
                &&& final(doc).history.past().last().action matches UndoAction::ProjectDescription { old, new }
                &&& old@ == o && new@ == new_value@
            },
            _ => final(doc).history == old(doc).history,
        },
{
    let old_str = match take_pending(doc, id) {
        Some(s) => s,
        None => return ,
    };
    if str_eq(old_str.as_str(), new_value) {
        return ;
    }
    let action = UndoAction::ProjectDescription { old: old_str, new: owned(new_value) };
    doc.push_undo(action, "Edit description");
}

/// The old PPQ of a pending edit: the saved text read as a `u32`, 480 when it
/// does not parse.
pub open spec fn old_ppq(text: Seq<char>) -> u32 {
    match spec_parse_u32(text) {
        Some(v) => v,
        None => 480,
    }
}

/// The old zstd level of a pending edit: the saved text read as an `i32`, 3
/// when it does not parse.
pub open spec fn old_compression_level(text: Seq<char>) -> i32 {
    match spec_parse_i32(text) {
        Some(v) => v,
        None => 3,
    }
}

/// Commits a PPQ edit. `rescale`: the change also rescaled every tick, so
/// undo and redo rescale back.
pub fn commit_ppq(doc: &mut Document, id: u64, new_value: u32, rescale: bool)
    ensures
        pending_taken(*old(doc), *final(doc), id),
        match pending_text(*old(doc), id) {
            Some(o) if old_ppq(o) != new_value => {
                &&& recorded(*old(doc), *final(doc), "Edit PPQ"@)
                &&& final(doc).history.past().last().action == (UndoAction::ProjectPpq {
                    old: old_ppq(o),
                    new: new_value,
                    rescale,
                })
            },
            _ => final(doc).history == old(doc).history,
        },
{
    let old_str = match take_pending(doc, id) {
        Some(s) => s,
        None => return ,
    };
    let old = match parse_u32(old_str.as_str()) {
        Some(v) => v,
        None => 480,
    };
    if old == new_value {
        return ;
    }
    doc.push_undo(UndoAction::ProjectPpq { old, new: new_value, rescale }, "Edit PPQ");
}

/// Commits a compression-level edit.
pub fn commit_compression_level(doc: &mut Document, id: u64, new_value: i32)
    ensures
        pending_taken(*old(doc), *final(doc), id),
        match pending_text(*old(doc), id) {
            Some(o) if old_compression_level(o) != new_value => {
                &&& recorded(*old(doc), *final(doc), "Edit zstd level"@)
                &&& final(doc).history.past().last().action == (UndoAction::CompressionLevel {
                    old: old_compression_level(o),
                    new: new_value,
                })
            },
            _ => final(doc).history == old(doc).history,
        },
{
    let old_str = match take_pending(doc, id) {
        Some(s) => s,
        None => return ,
    };
    let old = match parse_i32(old_str.as_str()) {
        Some(v) => v,
        None => 3,
    };
    if old == new_value {
        return ;
    }
    doc.push_undo(UndoAction::CompressionLevel { old, new: new_value }, "Edit zstd level");
}

} // verus!
