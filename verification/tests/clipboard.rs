use yinhe_editor::clipboard::{ClipboardSyncState, PasteStep};

#[test]
fn paste_keeps_internal_while_export_runs() {
    let mut s = ClipboardSyncState::new();
    s.start_export("a1".to_string());
    assert!(matches!(s.resolve_paste(Some(Some("zz".to_string()))), PasteStep::KeepInternal));
    assert!(s.local_newer);
}

#[test]
fn export_sets_active_id() {
    let mut s = ClipboardSyncState::new();
    s.start_export("a1".to_string());
    s.start_export("a2".to_string());
    // the older export was replaced
    assert_eq!(s.export_finished("a1", true), None);
    assert_eq!(s.export_finished("a2", true), Some(true));
    assert_eq!(s.active_id.as_deref(), Some("a2"));
    assert!(!s.local_newer);
    assert!(s.pending_id.is_none());
    // own reference: internal data, if any
    assert!(matches!(s.resolve_paste(Some(Some("a2".to_string()))), PasteStep::InternalIfNotEmpty));
}

#[test]
fn failed_export_keeps_local_data_authoritative() {
    let mut s = ClipboardSyncState::new();
    s.start_export("a1".to_string());
    assert_eq!(s.export_finished("a1", false), Some(false));
    assert!(s.local_newer);
    // external text does not drop the newer local data
    assert!(matches!(s.resolve_paste(Some(None)), PasteStep::KeepInternal));
}

#[test]
fn external_text_drops_internal_data() {
    let mut s = ClipboardSyncState::new();
    s.active_id = Some("old".to_string());
    assert!(matches!(s.resolve_paste(Some(None)), PasteStep::Invalidate));
    assert!(s.active_id.is_none());
    // no readable clipboard: internal data stays
    s.active_id = Some("old".to_string());
    assert!(matches!(s.resolve_paste(None), PasteStep::KeepInternal));
    assert_eq!(s.active_id.as_deref(), Some("old"));
}

#[test]
fn other_window_reference_is_loaded() {
    let mut s = ClipboardSyncState::new();
    match s.resolve_paste(Some(Some("other".to_string()))) {
        PasteStep::LoadFile(id) => {
            assert_eq!(id, "other");
            s.finish_load(&id, true);
        }
        _ => panic!("expected a load"),
    }
    assert_eq!(s.active_id.as_deref(), Some("other"));
    s.finish_load("gone", false);
    assert!(s.active_id.is_none());
}
