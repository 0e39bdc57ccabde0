use yinhe_editor::shortcuts::{
    all_action_ids, default_combo, KeyCombo, Keybindings, StoredCombos, ACTION_EXPORT_AUDIO, ACTION_SAVE,
    ACTION_TOOL_ERASER, ACTION_UNDO,
};

fn combo(command: bool, shift: bool, key: &str) -> KeyCombo {
    KeyCombo {
        command,
        shift,
        alt: false,
        key: key.to_string(),
    }
}

#[test]
fn defaults_cover_all_actions() {
    for id in all_action_ids() {
        let kb = Keybindings::default();
        assert!(kb.map.contains_key(id), "默认表缺少动作 {id}");
        assert_eq!(kb.get(id), default_combo(id).into_iter().collect::<Vec<_>>());
    }
}

#[test]
fn get_falls_back_for_missing_id() {
    let kb = Keybindings::default();
    assert_eq!(
        kb.get(ACTION_SAVE),
        default_combo(ACTION_SAVE).into_iter().collect::<Vec<_>>()
    );
    let mut kb2 = kb.clone();
    kb2.map.remove(ACTION_SAVE);
    assert_eq!(
        kb2.get(ACTION_SAVE),
        default_combo(ACTION_SAVE).into_iter().collect::<Vec<_>>()
    );
}

#[test]
fn empty_list_disables_shortcut() {
    let mut kb = Keybindings::default();
    kb.set(ACTION_SAVE, Vec::new());
    assert!(kb.get(ACTION_SAVE).is_empty());
}

#[test]
fn multiple_combos_per_action() {
    let mut kb = Keybindings::default();
    kb.add(ACTION_SAVE, combo(true, false, "S"));
    kb.add(ACTION_SAVE, combo(false, true, "F2"));
    assert_eq!(
        kb.get(ACTION_SAVE),
        vec![combo(true, false, "S"), combo(false, true, "F2")]
    );

    kb.add(ACTION_SAVE, combo(true, false, "S"));
    assert_eq!(kb.get(ACTION_SAVE).len(), 2);

    kb.remove(ACTION_SAVE, &combo(true, false, "S"));
    assert_eq!(kb.get(ACTION_SAVE), vec![combo(false, true, "F2")]);
}

// ── further cases ──

#[test]
fn default_shortcuts_of_some_actions() {
    assert_eq!(default_combo(ACTION_UNDO), Some(combo(true, false, "Z")));
    assert_eq!(default_combo(ACTION_EXPORT_AUDIO), None);
    assert_eq!(default_combo(ACTION_TOOL_ERASER), Some(combo(false, false, "7")));
    assert_eq!(default_combo("no_such_action"), None);
    assert_eq!(all_action_ids().len(), 28);
}

#[test]
fn unknown_action_has_no_shortcut_until_set() {
    let mut kb = Keybindings::default();
    assert!(kb.get("custom").is_empty());
    assert!(!kb.map.contains_key("custom"));
    kb.add("custom", combo(false, false, "F9"));
    assert_eq!(kb.get("custom"), vec![combo(false, false, "F9")]);
    kb.remove("custom", &combo(false, false, "F9"));
    assert!(kb.get("custom").is_empty());
    assert!(kb.map.contains_key("custom"));
}

#[test]
fn reset_restores_defaults() {
    let mut kb = Keybindings::default();
    kb.set(ACTION_UNDO, vec![combo(false, false, "U")]);
    kb.map.remove(ACTION_SAVE);
    kb.reset_to_defaults();
    assert_eq!(kb.get(ACTION_UNDO), vec![combo(true, false, "Z")]);
    assert!(kb.map.contains_key(ACTION_SAVE));
}

// ── stored configurations (the JSON settings file) ──

fn combo_from_json(v: &serde_json::Value) -> KeyCombo {
    let flag = |k: &str| v.get(k).and_then(|b| b.as_bool()).unwrap_or(false);
    KeyCombo {
        command: flag("command"),
        shift: flag("shift"),
        alt: flag("alt"),
        key: v.get("key").and_then(|k| k.as_str()).unwrap_or("").to_string(),
    }
}

fn combo_to_json(c: &KeyCombo) -> serde_json::Value {
    let mut m = serde_json::Map::new();
    m.insert("command".into(), serde_json::Value::Bool(c.command));
    m.insert("shift".into(), serde_json::Value::Bool(c.shift));
    m.insert("alt".into(), serde_json::Value::Bool(c.alt));
    m.insert("key".into(), serde_json::Value::String(c.key.clone()));
    serde_json::Value::Object(m)
}

/// Reads the `map` object of a settings file: a list, a single combination or `null`.
fn read_config(json: &str) -> Keybindings {
    let v: serde_json::Value = serde_json::from_str(json).unwrap();
    let mut entries = Vec::new();
    for (id, value) in v["map"].as_object().unwrap() {
        let stored = match value {
            serde_json::Value::Array(list) => StoredCombos::List(list.iter().map(combo_from_json).collect()),
            serde_json::Value::Null => StoredCombos::Single(None),
            other => StoredCombos::Single(Some(combo_from_json(other))),
        };
        entries.push((id.clone(), stored));
    }
    Keybindings::from_stored(entries)
}

fn write_config(kb: &Keybindings) -> String {
    let mut map = serde_json::Map::new();
    for (id, combos) in kb.map.to_entries() {
        map.insert(id, serde_json::Value::Array(combos.iter().map(combo_to_json).collect()));
    }
    let mut root = serde_json::Map::new();
    root.insert("map".into(), serde_json::Value::Object(map));
    serde_json::Value::Object(root).to_string()
}

#[test]
fn serde_roundtrip() {
    let kb = Keybindings::default();
    let json = write_config(&kb);
    let back = read_config(&json);
    for id in all_action_ids() {
        assert_eq!(back.get(id), kb.get(id));
        assert!(back.map.contains_key(id));
    }
    assert_eq!(back.map.to_entries().len(), kb.map.to_entries().len());
}

#[test]
fn serde_reads_old_single_combo_config() {
    // old format: a single combination object (not a list)
    let json = r#"{"map":{"save":{"command":true,"shift":false,"alt":false,"key":"S"}}}"#;
    let kb = read_config(json);
    assert_eq!(kb.get(ACTION_SAVE), vec![combo(true, false, "S")]);

    // old format: null = disabled
    let json = r#"{"map":{"save":null}}"#;
    let kb = read_config(json);
    assert_eq!(kb.get(ACTION_SAVE), Vec::<KeyCombo>::new());
}

#[test]
fn stored_entries_later_key_wins() {
    let kb = Keybindings::from_stored(vec![
        ("undo".to_string(), StoredCombos::List(vec![combo(false, false, "U")])),
        ("undo".to_string(), StoredCombos::Single(Some(combo(true, false, "Y")))),
    ]);
    assert_eq!(kb.get(ACTION_UNDO), vec![combo(true, false, "Y")]);
    // actions absent from the stored table fall back to their defaults
    assert_eq!(kb.get(ACTION_SAVE), vec![combo(true, false, "S")]);
    assert!(!kb.map.contains_key(ACTION_SAVE));
}

#[test]
fn table_entries_come_in_key_order() {
    let mut kb = Keybindings::default();
    kb.set("aaa_custom", vec![combo(false, false, "F1")]);
    kb.set("zzz_custom", Vec::new());
    let ids: Vec<String> = kb.map.to_entries().into_iter().map(|(k, _)| k).collect();
    let mut sorted = ids.clone();
    sorted.sort();
    assert_eq!(ids, sorted);
    assert_eq!(ids.first().map(|s| s.as_str()), Some("aaa_custom"));
    assert_eq!(ids.last().map(|s| s.as_str()), Some("zzz_custom"));
}
