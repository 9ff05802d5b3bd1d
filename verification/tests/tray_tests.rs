use pawse::budget::AppState;
use pawse::sensing::MonitorRef;
use pawse::tray::{
    center_on_cursor_monitor, fits_centred, snooze_window_monitor, click_shows_settings, format_minutes, menu_action, tooltip_for,
    MenuAction, SNOOZE_WINDOW_HEIGHT, SNOOZE_WINDOW_WIDTH,
};

#[test]
fn minutes_formatting() {
    assert_eq!(format_minutes(0), "0 s");
    assert_eq!(format_minutes(59), "59 s");
    assert_eq!(format_minutes(60), "1 min");
    assert_eq!(format_minutes(3599), "59 min");
    assert_eq!(format_minutes(3600), "1 h");
    assert_eq!(format_minutes(3659), "1 h");
    assert_eq!(format_minutes(3660), "1 h 1 min");
    assert_eq!(format_minutes(7500), "2 h 5 min");
    assert_eq!(format_minutes(u32::MAX), "1193046 h 28 min");
}

#[test]
fn tooltips() {
    assert_eq!(tooltip_for(&AppState::Idle { remaining_secs: 2520 }, 0), "pawse — 42 min remaining");
    assert_eq!(tooltip_for(&AppState::Active { remaining_secs: 30 }, 0), "pawse — 30 s remaining");
    assert_eq!(tooltip_for(&AppState::Break { remaining_secs: 180 }, 0), "on break — 3 min");
    assert_eq!(tooltip_for(&AppState::DeferredBreak, 0), "break pending — fullscreen");
    assert_eq!(tooltip_for(&AppState::Snoozed { until_unix: 1720 }, 1000), "snoozed for 12 min");
    assert_eq!(tooltip_for(&AppState::Snoozed { until_unix: 10 }, 1000), "snoozed for 0 s");
}

#[test]
fn snoozed_tooltip_saturates_at_u32_max() {
    let until = (1u64 << 32) + 61;
    assert_eq!(tooltip_for(&AppState::Snoozed { until_unix: until }, 0), "snoozed for 1193046 h 28 min");
}

#[test]
fn menu_entries() {
    assert_eq!(menu_action("snooze"), Some(MenuAction::OpenSnooze));
    assert_eq!(menu_action("settings"), Some(MenuAction::ShowSettings));
    assert_eq!(menu_action("quit"), Some(MenuAction::Quit));
    assert_eq!(menu_action("Quit"), None);
    assert_eq!(menu_action(""), None);
}

#[test]
fn tray_double_left_click_shows_settings() {
    assert!(click_shows_settings(true, true));
    assert!(!click_shows_settings(false, true));
    assert!(!click_shows_settings(true, false));
}

#[test]
fn snooze_window_centred_on_cursor_monitor() {
    let ms = vec![
        MonitorRef { x: 0, y: 0, width: 1920, height: 1080 },
        MonitorRef { x: 1920, y: 0, width: 1280, height: 1024 },
    ];
    let primary = Some(ms[0]);
    let w = SNOOZE_WINDOW_WIDTH;
    let h = SNOOZE_WINDOW_HEIGHT;
    assert_eq!(center_on_cursor_monitor(Some((2000, 10)), &ms, primary, w, h), (1920 + 460, 427));
    assert_eq!(center_on_cursor_monitor(Some((5, 5)), &ms, primary, w, h), (780, 455));
    // off every monitor: the primary one
    assert_eq!(center_on_cursor_monitor(Some((-50, 5)), &ms, primary, w, h), (780, 455));
    // unknown cursor: the primary one
    assert_eq!(center_on_cursor_monitor(None, &ms, primary, w, h), (780, 455));
    // no monitor at all
    assert_eq!(center_on_cursor_monitor(None, &ms, None, w, h), (100, 100));
    // monitor smaller than the window: top-left corner
    let tiny = vec![MonitorRef { x: 7, y: 9, width: 100, height: 50 }];
    assert_eq!(center_on_cursor_monitor(Some((8, 10)), &tiny, None, w, h), (7, 9));
    // the right edge belongs to the next monitor
    assert_eq!(center_on_cursor_monitor(Some((1920, 0)), &ms, primary, w, h), (1920 + 460, 427));
}

#[test]
fn snooze_window_target_and_fit() {
    let ms = vec![MonitorRef { x: 0, y: 0, width: 800, height: 600 }];
    let other = MonitorRef { x: 5000, y: 0, width: 10, height: 10 };
    assert_eq!(snooze_window_monitor(Some((10, 10)), &ms, Some(other)), Some(ms[0]));
    assert_eq!(snooze_window_monitor(Some((900, 10)), &ms, Some(other)), Some(other));
    assert_eq!(snooze_window_monitor(None, &ms, None), None);
    assert!(fits_centred(&ms[0], 360, 170));
    let edge = MonitorRef { x: i32::MAX - 10, y: 0, width: 1000, height: 1000 };
    assert!(!fits_centred(&edge, 360, 170));
}
