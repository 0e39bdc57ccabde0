use yinhe_editor::document::Document;
use yinhe_editor::history::commit::{
    begin_edit, commit_artist, commit_compression_level, commit_description, commit_ppq,
    commit_project_name, commit_track_name,
};
use yinhe_editor::history::{PendingEdits, UndoAction, UndoEntry, UndoStack, MAX_DEPTH};

fn make_doc(name: &str) -> Document {
    let mut doc = Document::empty();
    doc.model.track_names = vec![name.to_string()];
    doc.file_name = "test".to_string();
    doc
}

fn rename(old: &str, new: &str, label: &str) -> UndoEntry {
    UndoEntry {
        action: UndoAction::TrackName {
            track_idx: 0,
            old: old.into(),
            new: new.into(),
        },
        label: label.to_string(),
    }
}

#[test]
fn push_stores_and_clears_redo() {
    let mut doc = make_doc("a");
    doc.history.push(rename("a", "b", "rename"));
    assert!(doc.history.can_undo());
    assert!(!doc.history.can_redo());

    doc.undo();
    assert!(!doc.history.can_undo());
    assert!(doc.history.can_redo());

    doc.history.push(rename("c", "d", "rename2"));
    assert!(!doc.history.can_redo());
    assert!(doc.history.can_undo());
}

#[test]
fn undo_restores_track_name() {
    let mut doc = make_doc("old");
    doc.history.push(rename("old", "new", "rename"));
    // Apply the forward action manually (simulating the edit)
    doc.model.track_names[0] = "new".into();
    assert_eq!(doc.model.track_names[0], "new");

    // Undo
    assert!(doc.undo());
    assert_eq!(doc.model.track_names[0], "old");
    assert!(doc.history.can_redo());

    // Redo
    assert!(doc.redo());
    assert_eq!(doc.model.track_names[0], "new");
    assert!(doc.history.can_undo());
}

#[test]
fn undo_returns_none_when_empty() {
    let mut doc = make_doc("x");
    assert!(!doc.undo());
}

#[test]
fn redo_returns_none_when_empty() {
    let mut doc = make_doc("x");
    assert!(!doc.redo());
}

#[test]
fn clear_wipes_everything() {
    let mut doc = make_doc("a");
    doc.history.push(rename("a", "b", "rename"));
    doc.undo();
    assert!(doc.history.can_undo() || doc.history.can_redo());

    doc.history.clear();
    assert!(!doc.history.can_undo());
    assert!(!doc.history.can_redo());
    assert_eq!(doc.history.past_len(), 0);
    assert_eq!(doc.history.future_len(), 0);
}

#[test]
fn track_zero_rename_also_renames_project() {
    let mut doc = make_doc("new");
    doc.model.meta.name = "new".into();
    doc.history.push(rename("old", "new", "rename"));
    assert!(doc.undo());
    assert_eq!(doc.model.track_names[0], "old");
    assert_eq!(doc.model.meta.name, "old");
    assert!(doc.redo());
    assert_eq!(doc.model.meta.name, "new");
}

#[test]
fn project_name_undo_also_renames_track_zero() {
    let mut doc = make_doc("Song");
    doc.model.meta.name = "Song".into();
    doc.history.push(UndoEntry {
        action: UndoAction::ProjectName {
            old: "Untitled".into(),
            new: "Song".into(),
        },
        label: "Edit project name".into(),
    });
    assert!(doc.undo());
    assert_eq!(doc.model.meta.name, "Untitled");
    assert_eq!(doc.model.track_names[0], "Untitled");
}

#[test]
fn rename_of_missing_track_changes_nothing() {
    let mut doc = make_doc("a");
    doc.history.push(UndoEntry {
        action: UndoAction::TrackName {
            track_idx: 5,
            old: "x".into(),
            new: "y".into(),
        },
        label: "rename".into(),
    });
    assert!(doc.undo());
    assert_eq!(doc.model.track_names, vec!["a".to_string()]);
    assert_eq!(doc.model.meta.name, "");
}

#[test]
fn undo_redo_roundtrip_keeps_lists() {
    let mut doc = make_doc("b");
    doc.history.push(rename("a", "b", "first"));
    doc.history.push(rename("b", "b", "second"));
    assert!(doc.undo());
    assert!(doc.redo());
    assert_eq!(doc.history.past_len(), 2);
    assert_eq!(doc.history.future_len(), 0);
    assert_eq!(doc.model.track_names[0], "b");
}

#[test]
fn dirty_after_edit_clean_after_save() {
    let mut h = UndoStack::new();
    assert!(!h.is_dirty());
    h.push(rename("a", "b", "r"));
    assert!(h.is_dirty());
    h.mark_saved();
    assert!(!h.is_dirty());
    h.push(rename("b", "c", "r"));
    assert!(h.is_dirty());
}

#[test]
fn loaded_file_is_dirty_until_saved() {
    let mut h = UndoStack::default();
    h.mark_loaded();
    assert!(h.is_dirty());
    h.mark_saved();
    assert!(!h.is_dirty());
}

#[test]
fn full_stack_drops_oldest_entry() {
    let mut h = UndoStack::new();
    for _ in 0..MAX_DEPTH + 3 {
        h.push(rename("a", "b", "r"));
    }
    assert_eq!(h.past_len(), MAX_DEPTH);
}

#[test]
fn pending_edits_roundtrip() {
    let mut p = PendingEdits::default();
    assert!(!p.has(7));
    p.begin(7, "old");
    assert!(p.has(7));
    assert_eq!(p.get(7), Some("old"));
    assert_eq!(p.take(7), Some("old".to_string()));
    assert!(!p.has(7));
    assert_eq!(p.take(7), None);
}

#[test]
fn commit_track_name_records_change_only() {
    let mut doc = make_doc("a");
    begin_edit(&mut doc.edit.pending_edits, 1, "a");
    commit_track_name(&mut doc, 1, 0, "a");
    assert!(!doc.history.can_undo());
    assert!(!doc.edit.pending_edits.has(1));

    begin_edit(&mut doc.edit.pending_edits, 1, "a");
    doc.model.track_names[0] = "b".into();
    commit_track_name(&mut doc, 1, 0, "b");
    assert_eq!(doc.history.past_len(), 1);
    assert!(doc.undo());
    assert_eq!(doc.model.track_names[0], "a");
}

#[test]
fn commit_without_begin_records_nothing() {
    let mut doc = make_doc("a");
    commit_project_name(&mut doc, 9, "x");
    commit_artist(&mut doc, 9, "x");
    commit_description(&mut doc, 9, "x");
    assert!(!doc.history.can_undo());
}

#[test]
fn commit_text_fields_undo() {
    let mut doc = make_doc("a");
    begin_edit(&mut doc.edit.pending_edits, 2, "");
    doc.model.meta.artist = "Me".into();
    commit_artist(&mut doc, 2, "Me");
    begin_edit(&mut doc.edit.pending_edits, 3, "");
    doc.model.meta.description = "Notes".into();
    commit_description(&mut doc, 3, "Notes");
    assert_eq!(doc.history.past_len(), 2);
    assert!(doc.undo());
    assert_eq!(doc.model.meta.description, "");
    assert!(doc.undo());
    assert_eq!(doc.model.meta.artist, "");
}

#[test]
fn commit_ppq_parses_old_text() {
    let mut doc = make_doc("a");
    begin_edit(&mut doc.edit.pending_edits, 4, "960");
    doc.model.meta.ppq = 480;
    commit_ppq(&mut doc, 4, 480, false);
    assert!(doc.undo());
    assert_eq!(doc.model.meta.ppq, 960);

    // An unreadable old value counts as 480: no change recorded for 480.
    let mut doc = make_doc("a");
    begin_edit(&mut doc.edit.pending_edits, 4, "abc");
    commit_ppq(&mut doc, 4, 480, true);
    assert!(!doc.history.can_undo());
}

#[test]
fn commit_compression_level_parses_old_text() {
    let mut doc = make_doc("a");
    begin_edit(&mut doc.edit.pending_edits, 5, "-7");
    doc.model.meta.compression_level = 19;
    commit_compression_level(&mut doc, 5, 19);
    assert!(doc.undo());
    assert_eq!(doc.model.meta.compression_level, -7);
    assert!(doc.redo());
    assert_eq!(doc.model.meta.compression_level, 19);

    let mut doc = make_doc("a");
    begin_edit(&mut doc.edit.pending_edits, 5, "x");
    commit_compression_level(&mut doc, 5, 3);
    assert!(!doc.history.can_undo());
}

#[test]
fn edit_after_save_on_full_stack_is_dirty() {
    let mut h = UndoStack::new();
    for _ in 0..MAX_DEPTH {
        h.push(rename("a", "b", "r"));
    }
    h.mark_saved();
    assert!(!h.is_dirty());
    h.push(rename("b", "c", "r"));
    assert_eq!(h.past_len(), MAX_DEPTH);
    assert!(h.is_dirty());
}

#[test]
fn dropping_the_saved_base_keeps_stack_dirty() {
    let mut h = UndoStack::new();
    for _ in 0..MAX_DEPTH {
        h.push(rename("a", "b", "r"));
    }
    // the save point (empty stack) has been dropped: no undo returns to it
    assert!(h.is_dirty());
    h.push(rename("b", "c", "r"));
    assert!(h.is_dirty());
}
