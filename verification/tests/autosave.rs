use yinhe_editor::autosave::{
    default_true, lost_recovery_plan, AutoSaveEntry, AutoSaveState, Manifest, RecoveryStart,
};

fn entry(doc_id: u64, file: &str) -> AutoSaveEntry {
    AutoSaveEntry {
        doc_id,
        file: file.to_string(),
        original: None,
        name: format!("doc{doc_id}"),
        saved_at: 100,
        backup: true,
    }
}

fn files(v: &[AutoSaveEntry]) -> Vec<(u64, String)> {
    v.iter().map(|e| (e.doc_id, e.file.clone())).collect()
}

fn state_with(entries: Vec<AutoSaveEntry>) -> AutoSaveState {
    let mut m = Manifest::new();
    m.entries = entries;
    let mut s = AutoSaveState::new(Manifest::new());
    s.manifest = m;
    s
}

#[test]
fn interval_is_clamped() {
    let s = AutoSaveState::new(Manifest::new());
    assert!(s.interval_due(None, 300));
    assert!(s.interval_due(Some(10_000), 1));
    assert!(!s.interval_due(Some(9_999), 1));
    assert!(!s.interval_due(Some(299_999), 300));
    assert!(s.interval_due(Some(300_000), 300));
    assert!(!s.interval_due(Some(86_399_999), u64::MAX));
    assert!(s.interval_due(Some(86_400_000), u64::MAX));
}

#[test]
fn batch_result_replaces_records_of_same_document() {
    let mut s = state_with(vec![entry(1, "a1"), entry(2, "b1"), entry(3, "c1")]);
    s.in_flight = true;
    let stale = s.take_batch_result(vec![entry(2, "b2"), entry(3, "c1"), entry(4, "d1")]);
    assert!(!s.in_flight);
    assert_eq!(
        files(&s.manifest.entries),
        vec![(1, "a1".into()), (2, "b2".into()), (3, "c1".into()), (4, "d1".into())]
    );
    // the record of document 3 kept its file: nothing to delete for it
    assert_eq!(files(&stale), vec![(2, "b1".into())]);
}

#[test]
fn batch_result_with_repeated_document_keeps_last() {
    let mut s = state_with(vec![]);
    let stale = s.take_batch_result(vec![entry(7, "x"), entry(7, "y")]);
    assert_eq!(files(&s.manifest.entries), vec![(7, "y".into())]);
    assert_eq!(files(&stale), vec![(7, "x".into())]);
}

#[test]
fn discard_for_removes_first_record() {
    let mut s = state_with(vec![entry(1, "a"), entry(2, "b")]);
    let e = s.discard_for(2).unwrap();
    assert_eq!(e.file, "b");
    assert_eq!(files(&s.manifest.entries), vec![(1, "a".into())]);
    assert!(s.discard_for(9).is_none());
    assert_eq!(s.manifest.entries.len(), 1);
}

#[test]
fn clear_empties_manifest() {
    let mut s = state_with(vec![entry(1, "a")]);
    s.manifest.auto_recover = true;
    s.manifest.reopen = vec!["/x.yin".into()];
    let taken = s.clear();
    assert_eq!(files(&taken), vec![(1, "a".into())]);
    assert!(s.manifest.is_blank());
}

#[test]
fn leftovers_offer_recovery_dialog_once() {
    let mut m = Manifest::new();
    m.entries = vec![entry(1, "a")];
    let mut s = AutoSaveState::new(m);
    assert!(s.recovery.is_some());
    assert!(matches!(s.begin_recovery(), RecoveryStart::AskUser));
    assert!(s.show_recovery_dialog);
    assert!(matches!(s.begin_recovery(), RecoveryStart::Nothing));
}

#[test]
fn automatic_restart_restores_without_asking() {
    let mut m = Manifest::new();
    m.auto_recover = true;
    m.entries = vec![entry(1, "a"), entry(2, "b")];
    m.reopen = vec!["/song.yin".into()];
    let mut s = AutoSaveState::new(m);
    match s.begin_recovery() {
        RecoveryStart::Restore { entries, reopen } => {
            assert_eq!(files(&entries), vec![(1, "a".into()), (2, "b".into())]);
            assert_eq!(reopen, vec!["/song.yin".to_string()]);
            s.restore(entries);
        }
        _ => panic!("expected an automatic restore"),
    }
    assert!(s.restore_in_flight);
    assert!(!s.show_recovery_dialog);
    assert!(s.next_restore(true).is_none());
    let first = s.next_restore(false).unwrap();
    assert_eq!(first.doc_id, 1);
    s.finish_restore(1);
    assert!(!s.manifest.auto_recover);
    assert_eq!(files(&s.manifest.entries), vec![(2, "b".into())]);
    let second = s.next_restore(false).unwrap();
    assert_eq!(second.doc_id, 2);
    assert!(s.next_restore(false).is_none());
    assert!(!s.restore_in_flight);
}

#[test]
fn no_leftovers_no_recovery() {
    let mut s = AutoSaveState::new(Manifest::new());
    assert!(s.recovery.is_none());
    assert!(matches!(s.begin_recovery(), RecoveryStart::Nothing));
    assert!(default_true());
}

#[test]
fn discard_recovery_empties_everything() {
    let mut m = Manifest::new();
    m.entries = vec![entry(1, "a")];
    let mut s = AutoSaveState::new(m);
    s.begin_recovery();
    s.discard_recovery();
    assert!(s.manifest.is_blank());
    assert!(s.recovery.is_none());
    assert!(!s.show_recovery_dialog);
}

#[test]
fn reopen_record_points_at_original() {
    let e = AutoSaveEntry::reopen("/a/b.yin".into(), "b".into());
    assert_eq!(e.original.as_deref(), Some("/a/b.yin"));
    assert!(!e.backup);
    let d = e.duplicate();
    assert_eq!(d.file, "/a/b.yin");
    assert_eq!(d.name, "b");
}

#[test]
fn lost_device_plan_splits_documents() {
    let docs = vec![
        (true, Some("/a.yin".to_string())),
        (false, Some("/b.yin".to_string())),
        (false, None),
        (true, None),
    ];
    let (jobs, reopen) = lost_recovery_plan(&docs);
    assert_eq!(jobs, vec![0, 3]);
    assert_eq!(reopen, vec!["/b.yin".to_string()]);
}
