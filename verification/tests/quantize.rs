use yinhe_editor::quantize::QuantizePreset;

#[test]
fn test_quarter_at_480ppq() {
    // 1/4: 480*4/4 = 480
    assert_eq!(QuantizePreset::Fraction(1, 4).tick_interval(480), 480);
}

#[test]
fn test_eighth_at_480ppq() {
    // 1/8: 480*4/8 = 240
    assert_eq!(QuantizePreset::Fraction(1, 8).tick_interval(480), 240);
}

#[test]
fn test_whole_at_480ppq() {
    // 1/1: 480*4/1 = 1920
    assert_eq!(QuantizePreset::Fraction(1, 1).tick_interval(480), 1920);
}

#[test]
fn test_custom_half() {
    // Fraction(1,2): 480*4*1/2 = 960
    assert_eq!(QuantizePreset::Fraction(1, 2).tick_interval(480), 960);
}

#[test]
fn test_default_is_quarter() {
    assert_eq!(QuantizePreset::default(), QuantizePreset::Fraction(1, 4));
}

#[test]
fn test_triplet_intervals() {
    let ppq = 480;
    assert_eq!(QuantizePreset::Fraction(1, 6).tick_interval(ppq), 320);
    assert_eq!(QuantizePreset::Fraction(1, 12).tick_interval(ppq), 160);
    assert_eq!(QuantizePreset::Fraction(1, 24).tick_interval(ppq), 80);
}

#[test]
fn test_absolute_tick() {
    assert_eq!(QuantizePreset::Absolute(3).tick_interval(480), 3);
    assert_eq!(QuantizePreset::Absolute(3).tick_interval(1), 3);
    assert_eq!(QuantizePreset::Absolute(3).label(), "3 tick");
}

#[test]
fn test_half_and_thirtysec_intervals() {
    let ppq = 480;
    assert_eq!(QuantizePreset::Fraction(1, 2).tick_interval(ppq), 960);
    assert_eq!(QuantizePreset::Fraction(1, 32).tick_interval(ppq), 60);
    assert_eq!(QuantizePreset::Fraction(1, 64).tick_interval(ppq), 30);
}

#[test]
fn test_label_not_empty() {
    for preset in QuantizePreset::all() {
        assert!(!preset.label().is_empty(), "label should not be empty for {:?}", preset);
    }
}

#[test]
fn test_display_item_not_empty() {
    for preset in QuantizePreset::all() {
        assert!(!preset.display_item(480).is_empty(), "display_item should not be empty for {:?}", preset);
    }
}

#[test]
fn test_all_presets_have_unique_labels() {
    let mut labels = std::collections::HashSet::new();
    for preset in QuantizePreset::all() {
        assert!(labels.insert(preset.label()), "duplicate label: {}", preset.label());
    }
}

// ── further cases ──

#[test]
fn fraction_labels_and_display_items() {
    assert_eq!(QuantizePreset::Fraction(3, 8).label(), "3/8");
    assert_eq!(QuantizePreset::Fraction(1, 8).display_item(480), "1/8  (240 刻度)");
    assert_eq!(QuantizePreset::Absolute(3).display_item(480), "3 刻度");
    assert_eq!(QuantizePreset::Absolute(0).label(), "0 tick");
}

#[test]
fn tick_interval_rounds_up_and_saturates() {
    // 7 * 4 * 1 / 3 = 9.33 → 10
    assert_eq!(QuantizePreset::Fraction(1, 3).tick_interval(7), 10);
    // zero PPQ and zero denominator count as 1
    assert_eq!(QuantizePreset::Fraction(1, 4).tick_interval(0), 1);
    assert_eq!(QuantizePreset::Fraction(1, 0).tick_interval(480), 1920);
    // saturating multiplication
    assert_eq!(QuantizePreset::Fraction(u32::MAX, 1).tick_interval(u32::MAX), u32::MAX);
    assert_eq!(QuantizePreset::Fraction(3, 2).tick_interval(u32::MAX), u32::MAX / 2 + 1);
}

#[test]
fn all_presets_in_display_order() {
    let all = QuantizePreset::all();
    assert_eq!(all.len(), 12);
    assert_eq!(all[0], QuantizePreset::Fraction(1, 1));
    assert_eq!(all[7], QuantizePreset::Fraction(1, 128));
    assert_eq!(all[11], QuantizePreset::Fraction(1, 48));
}
