use yinhe_editor::poll::{detached_file_name, format_load_duration, is_detached_temp_path};
use yinhe_editor::startup::startup_ready;

#[test]
fn load_duration_omits_leading_units() {
    assert_eq!(
        format_load_duration(std::time::Duration::from_millis(135_321).as_millis()),
        "加载时间：2分15秒321毫秒"
    );
    assert_eq!(
        format_load_duration(std::time::Duration::from_millis(15_321).as_millis()),
        "加载时间：15秒321毫秒"
    );
    assert_eq!(
        format_load_duration(std::time::Duration::from_millis(321).as_millis()),
        "加载时间：321毫秒"
    );
    assert_eq!(
        format_load_duration(std::time::Duration::from_millis(0).as_millis()),
        "加载时间：0毫秒"
    );
}

#[test]
fn startup_ready_requires_audio_only() {
    assert!(startup_ready(true, false, false, false));
    assert!(!startup_ready(false, false, false, false));
}

#[test]
fn startup_ready_waits_for_loading_and_pending_doc() {
    assert!(!startup_ready(true, false, true, false));
    assert!(!startup_ready(true, false, false, true));
}

#[test]
fn startup_ready_releases_on_audio_failure() {
    assert!(startup_ready(false, true, false, false));
    assert!(startup_ready(false, true, true, true));
}

// ── further cases ──

#[test]
fn load_duration_keeps_zero_seconds_inside_minutes() {
    assert_eq!(format_load_duration(60_000), "加载时间：1分0秒0毫秒");
    assert_eq!(format_load_duration(1_000), "加载时间：1秒0毫秒");
    assert_eq!(format_load_duration(999), "加载时间：999毫秒");
}

#[test]
fn detached_temp_paths() {
    assert!(is_detached_temp_path("/tmp/yinhe-detached-1234.yin"));
    assert!(is_detached_temp_path("yinhe-detached-.yin"));
    assert!(!is_detached_temp_path("/tmp/yinhe-detached-1234.mid"));
    assert!(!is_detached_temp_path("/tmp/yinhe-detached-1234.yin/.."));
    assert!(!is_detached_temp_path("/home/song.yin"));
    assert!(detached_file_name("yinhe-detached-x.yin"));
    assert!(!detached_file_name("x-yinhe-detached-x.yin"));
}
