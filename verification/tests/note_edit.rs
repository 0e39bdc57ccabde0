use yinhe_editor::note_edit::{mirrored_key, mirrored_note, shifted_note, MAX_KEY};

#[test]
fn shift_moves_and_clamps() {
    assert_eq!(shifted_note(100, 200, 60, 50, 2), (150, 250, 62));
    assert_eq!(shifted_note(100, 200, 60, -150, 0), (0, 100, 60));
    assert_eq!(shifted_note(0, 10, 120, 0, 20), (0, 10, MAX_KEY));
    assert_eq!(shifted_note(0, 10, 3, 0, -20), (0, 10, 0));
}

#[test]
fn shift_back_restores_unclamped_note() {
    let (s, e, k) = shifted_note(480, 960, 64, 240, -5);
    assert_eq!(shifted_note(s, e, k, -240, 5), (480, 960, 64));
}

#[test]
fn mirror_in_time_box() {
    // box 0..1000: a note at 100..300 lands at 700..900
    assert_eq!(mirrored_note(100, 300, 0, 1000), (700, 900));
    assert_eq!(mirrored_note(700, 900, 0, 1000), (100, 300));
    // a zero-length note keeps one tick
    assert_eq!(mirrored_note(500, 500, 0, 1000), (500, 501));
    // mirror of a point before the box start stops at 0
    assert_eq!(mirrored_note(0, 2000, 0, 1000), (0, 1000));
}

#[test]
fn mirror_keys() {
    assert_eq!(mirrored_key(60, 60, 72), 72);
    assert_eq!(mirrored_key(72, 60, 72), 60);
    assert_eq!(mirrored_key(66, 60, 72), 66);
    assert_eq!(mirrored_key(0, 100, 120), MAX_KEY);
    assert_eq!(mirrored_key(127, 0, 10), 0);
}
