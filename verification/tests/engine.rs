use yinhe_editor::audio_settings::{AudioSettings, GlobalSfConfig, SfEntry};
use yinhe_editor::engine::{
    resolve_sf_config, sf_configs_cover, spawn_result_target, EngineSettingsKey, EngineStatus,
};

fn cfgs(items: &[(u8, &[&str])]) -> Vec<(u8, Vec<String>)> {
    items
        .iter()
        .map(|(ch, paths)| (*ch, paths.iter().map(|s| s.to_string()).collect()))
        .collect()
}

#[test]
fn sf_configs_cover_subset_with_same_paths() {
    let engine = cfgs(&[(0, &["/a.sfz"]), (1, &["/a.sfz"])]);
    assert!(sf_configs_cover(&engine, &cfgs(&[(0, &["/a.sfz"])])));
    assert!(sf_configs_cover(&engine, &[]));
    assert!(sf_configs_cover(&engine, &engine));
}

#[test]
fn sf_configs_cover_rejects_missing_or_different() {
    let engine = cfgs(&[(0, &["/a.sfz"])]);
    assert!(!sf_configs_cover(&engine, &cfgs(&[(1, &["/a.sfz"])])));
    assert!(!sf_configs_cover(&engine, &cfgs(&[(0, &["/b.sfz"])])));
    assert!(!sf_configs_cover(&engine, &cfgs(&[(0, &["/a.sfz", "/b.sfz"])])));
    assert!(!sf_configs_cover(&cfgs(&[]), &cfgs(&[(0, &["/a.sfz"])])));
}

fn base() -> EngineSettingsKey {
    EngineSettingsKey {
        sample_rate: 48000,
        buffer_size: 0,
        output_device_name: Some("A".into()),
        use_gpu_synth: true,
        sf_entries: vec![("/p.sfz".into(), "Piano".into(), true)],
    }
}

#[test]
fn identical_settings_do_not_diff() {
    assert!(!base().differs(&base()));
}

#[test]
fn engine_relevant_changes_are_detected() {
    let mut sr = base();
    sr.sample_rate = 44100;
    assert!(base().differs(&sr));

    let mut buf = base();
    buf.buffer_size = 256;
    assert!(base().differs(&buf));

    let mut dev = base();
    dev.output_device_name = None;
    assert!(base().differs(&dev));

    let mut gpu = base();
    gpu.use_gpu_synth = false;
    assert!(base().differs(&gpu));

    let mut sf = base();
    sf.sf_entries[0].2 = false;
    assert!(base().differs(&sf));

    let mut sf_add = base();
    sf_add.sf_entries.push(("/q.sfz".into(), "Strings".into(), true));
    assert!(base().differs(&sf_add));
}

// ── further cases ──

#[test]
fn key_of_settings_keeps_engine_fields() {
    let settings = AudioSettings {
        sample_rate: 48000,
        buffer_size: 0,
        output_device_name: Some("A".into()),
        use_gpu_synth: true,
        global_sf_config: GlobalSfConfig {
            entries: vec![SfEntry {
                path: "/p.sfz".into(),
                name: "Piano".into(),
                enabled: true,
            }],
            global_enabled: true,
        },
        auto_save_enabled: true,
        auto_save_interval_secs: 60,
    };
    let key = EngineSettingsKey::of(&settings);
    assert!(!key.differs(&base()));
    assert_eq!(key.sf_entries, vec![("/p.sfz".to_string(), "Piano".to_string(), true)]);
}

#[test]
fn sf_configs_cover_needs_same_order_of_paths() {
    let engine = cfgs(&[(2, &["/a.sfz", "/b.sfz"])]);
    assert!(!sf_configs_cover(&engine, &cfgs(&[(2, &["/b.sfz", "/a.sfz"])])));
    assert!(sf_configs_cover(&engine, &cfgs(&[(2, &["/a.sfz", "/b.sfz"]), (2, &["/a.sfz", "/b.sfz"])])));
}

// ── sound-font resolution and engine rebuild decisions ──


fn entry(path: &str, enabled: bool) -> SfEntry {
    SfEntry { path: path.to_string(), name: path.to_string(), enabled }
}

#[test]
fn sf_config_prefers_override_then_global_then_builtin() {
    let active = vec![true, false, true, true];
    let global = vec![entry("/g1.sf2", true), entry("/off.sf2", false), entry("/g2.sf2", true)];
    let overrides = vec![
        (2u8, vec![entry("/p.sf2", true)]),
        (3u8, vec![entry("/off.sf2", false)]),
        (2u8, vec![entry("/later.sf2", true)]),
    ];
    let r = resolve_sf_config(&active, &global, &overrides, &Some("/builtin.sf2".to_string()));
    assert_eq!(
        r,
        vec![
            (0, vec!["/g1.sf2".to_string(), "/g2.sf2".to_string()]),
            (2, vec!["/p.sf2".to_string()]),
            (3, vec!["/builtin.sf2".to_string()]),
        ]
    );
    // without a bundled font an empty channel is skipped
    let r = resolve_sf_config(&active, &global, &overrides, &None);
    assert_eq!(r.len(), 2);
    assert_eq!(r[1].0, 2);
}

#[test]
fn sf_config_looks_at_first_256_channels_only() {
    let active = vec![true; 300];
    let global = vec![entry("/g.sf2", true)];
    let r = resolve_sf_config(&active, &global, &Vec::new(), &None);
    assert_eq!(r.len(), 256);
    assert_eq!(r[255].0, 255);
}

fn status() -> EngineStatus {
    EngineStatus {
        engine_doc: None,
        has_engine: false,
        spawn_in_flight: false,
        spawn_error: None,
        spawn_error_doc: None,
    }
}

#[test]
fn rebuild_targets_pending_then_active_document() {
    let mut s = status();
    assert_eq!(s.rebuild_target(None, None), None);
    assert_eq!(s.rebuild_target(None, Some(1)), Some(1));
    assert_eq!(s.rebuild_target(Some(2), Some(1)), Some(2));
    s.engine_doc = Some(1);
    s.has_engine = true;
    assert_eq!(s.rebuild_target(None, Some(1)), None);
    s.spawn_in_flight = true;
    assert_eq!(s.rebuild_target(None, Some(0)), None);
}

#[test]
fn failed_build_is_retried_only_for_another_document() {
    let mut s = status();
    s.spawn_error = Some("no device".to_string());
    s.spawn_error_doc = Some(0);
    assert_eq!(s.rebuild_target(None, Some(0)), None);
    assert!(s.spawn_error.is_some());
    assert_eq!(s.rebuild_target(None, Some(1)), Some(1));
    assert!(s.spawn_error.is_none());
    assert_eq!(s.spawn_error_doc, None);
}

#[test]
fn finished_build_is_kept_only_for_current_target() {
    assert_eq!(spawn_result_target(true, Some(1), None, Some(1)), Some(1));
    assert_eq!(spawn_result_target(false, Some(1), None, Some(1)), None);
    assert_eq!(spawn_result_target(true, Some(1), Some(2), Some(1)), None);
    assert_eq!(spawn_result_target(true, Some(2), Some(2), Some(1)), Some(2));
    assert_eq!(spawn_result_target(true, None, None, None), None);
}
