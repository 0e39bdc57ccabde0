use yinhe_editor::document::Document;
use yinhe_editor::history::{UndoAction, UndoEntry};
use yinhe_editor::workspace::reorder::{apply_reorder_noclone, plan_order};
use yinhe_editor::workspace::Workspace;

fn ids(ws: &Workspace) -> Vec<u64> {
    ws.documents.iter().map(|d| d.doc_id).collect()
}

fn workspace_of(n: u64) -> Workspace {
    let mut ws = Workspace::new();
    ws.documents[0].doc_id = 0;
    for i in 1..n {
        let idx = ws.new_project();
        ws.documents[idx].doc_id = i;
    }
    ws
}

#[test]
fn plan_order_moves_block_to_insert_point() {
    assert_eq!(plan_order(5, &[1, 3], 2), vec![0, 2, 1, 3, 4]);
    assert_eq!(plan_order(5, &[3, 1], 0), vec![3, 1, 0, 2, 4]);
    assert_eq!(plan_order(4, &[0], 10), vec![1, 2, 3, 0]);
    assert_eq!(plan_order(3, &[], 1), vec![0, 1, 2]);
    assert_eq!(plan_order(0, &[], 0), Vec::<usize>::new());
}

#[test]
fn apply_reorder_moves_items_without_clone() {
    let mut v = vec!["a".to_string(), "b".into(), "c".into(), "d".into()];
    apply_reorder_noclone(&mut v, &[0], 2);
    assert_eq!(v, vec!["b", "c", "a", "d"]);
    apply_reorder_noclone(&mut v, &[3, 0], 1);
    assert_eq!(v, vec!["c", "d", "b", "a"]);
}

#[test]
fn new_workspace_has_one_replaceable_tab() {
    let ws = Workspace::default();
    assert_eq!(ws.documents.len(), 1);
    assert_eq!(ws.active_doc, Some(0));
    assert_eq!(ws.prev_active_doc, Some(0));
    assert!(ws.should_replace_initial_untitled());
}

#[test]
fn edited_or_saved_tab_is_not_replaced() {
    let mut ws = Workspace::new();
    ws.documents[0].history.push(UndoEntry {
        action: UndoAction::ProjectArtist { old: "".into(), new: "x".into() },
        label: "Edit artist".into(),
    });
    assert!(!ws.should_replace_initial_untitled());

    let mut ws = Workspace::new();
    ws.documents[0].file_path = Some("/a.yin".into());
    assert!(!ws.should_replace_initial_untitled());

    let mut ws = Workspace::new();
    ws.documents[0].note_count = 3;
    assert!(!ws.should_replace_initial_untitled());

    let mut ws = Workspace::new();
    ws.documents[0].mixer_dirty = true;
    assert!(!ws.should_replace_initial_untitled());

    let mut ws = Workspace::new();
    ws.new_project();
    assert!(!ws.should_replace_initial_untitled());
}

#[test]
fn new_project_becomes_active() {
    let mut ws = Workspace::new();
    let idx = ws.new_project();
    assert_eq!(idx, 1);
    assert_eq!(ws.active_doc, Some(1));
    assert_eq!(ws.prev_active_doc, Some(0));
}

#[test]
fn reorder_tab_keeps_active_document() {
    let mut ws = workspace_of(4);
    ws.active_doc = Some(1);
    let r = ws.reorder_tab(0, 3);
    assert_eq!(ids(&ws), vec![1, 2, 3, 0]);
    assert_eq!(r, Some(0));
    assert_eq!(ws.active_doc, Some(0));
    assert_eq!(ws.prev_active_doc, Some(0));
    assert_eq!(ws.active_doc_ref().unwrap().doc_id, 1);
}

#[test]
fn reorder_tab_noop_cases() {
    let mut ws = workspace_of(3);
    ws.active_doc = Some(2);
    ws.prev_active_doc = Some(1);
    assert_eq!(ws.reorder_tab(7, 0), Some(2));
    assert_eq!(ws.reorder_tab(1, 1), Some(2));
    assert_eq!(ids(&ws), vec![0, 1, 2]);
    assert_eq!(ws.prev_active_doc, Some(1));
}

#[test]
fn close_document_fixes_active_index() {
    let mut ws = workspace_of(3);
    ws.active_doc = Some(2);
    let d = ws.close_document(0).unwrap();
    assert_eq!(d.doc_id, 0);
    assert_eq!(ws.active_doc, Some(1));
    assert_eq!(ws.active_doc_ref().unwrap().doc_id, 2);

    // closing the active last tab selects the new last one
    let d = ws.close_document(1).unwrap();
    assert_eq!(d.doc_id, 2);
    assert_eq!(ws.active_doc, Some(0));

    // closing a tab after the active one leaves it alone
    let mut ws = workspace_of(3);
    ws.active_doc = Some(0);
    ws.take_document(2);
    assert_eq!(ws.active_doc, Some(0));

    assert!(ws.take_document(9).is_none());
    ws.take_document(0);
    ws.take_document(0);
    assert_eq!(ws.active_doc, None);
    assert!(ws.documents.is_empty());
    assert!(ws.active_doc_ref().is_none());
}

#[test]
fn active_doc_mut_edits_active_tab() {
    let mut ws = workspace_of(2);
    ws.active_doc = Some(1);
    ws.active_doc_mut().unwrap().file_name = "song".into();
    assert_eq!(ws.documents[1].file_name, "song");
    ws.active_doc = Some(5);
    assert!(ws.active_doc_mut().is_none());
    assert!(Document::empty().file_path.is_none());
}

#[test]
fn loaded_document_replaces_untouched_untitled_only() {
    let mut ws = Workspace::new();
    let mut doc = Document::empty();
    doc.doc_id = 42;
    assert_eq!(ws.place_loaded_document(doc), 0);
    assert_eq!(ids(&ws), vec![42]);
    assert_eq!(ws.active_doc, Some(0));

    // the loaded document has a path: the next one gets its own tab
    ws.documents[0].file_path = Some("/a.yin".into());
    let mut doc = Document::empty();
    doc.doc_id = 43;
    assert_eq!(ws.place_loaded_document(doc), 1);
    assert_eq!(ids(&ws), vec![42, 43]);
    assert_eq!(ws.active_doc, Some(1));
}
