use pawse::budget::{AppState, BudgetMachine, Config};
use pawse::commands::{
    add_tracked_app, autostart_action, greet, list_monitors, remove_tracked_app,
    set_break_minutes, set_usage_minutes, snooze, AutostartAction, CommandError, MonitorSource,
};

#[test]
fn greeting_text() {
    assert_eq!(greet("Tom"), "Hello, Tom! You've been greeted from Rust!");
    assert_eq!(greet(""), "Hello, ! You've been greeted from Rust!");
}

#[test]
fn error_messages() {
    assert_eq!(CommandError::EmptyExe.message(), "exe cannot be empty");
    assert_eq!(CommandError::UsageMinutesOutOfRange.message(), "usage_minutes must be 1..=600");
    assert_eq!(CommandError::BreakMinutesOutOfRange.message(), "break_minutes must be 1..=60");
    assert_eq!(CommandError::ZeroSnooze.message(), "seconds must be > 0");
}

#[test]
fn add_trims_and_appends() {
    let mut c = Config::default();
    assert_eq!(add_tracked_app(&mut c, "  Discord.exe \t"), Ok(true));
    assert_eq!(c.tracked_apps, vec!["Discord.exe".to_string()]);
}

#[test]
fn add_refuses_empty_name() {
    let mut c = Config::default();
    assert_eq!(add_tracked_app(&mut c, "   "), Err(CommandError::EmptyExe));
    assert_eq!(add_tracked_app(&mut c, ""), Err(CommandError::EmptyExe));
    assert_eq!(add_tracked_app(&mut c, "\u{3000}\u{a0}"), Err(CommandError::EmptyExe));
    assert!(c.tracked_apps.is_empty());
}

#[test]
fn add_is_idempotent_ignoring_case() {
    let mut c = Config::default();
    assert_eq!(add_tracked_app(&mut c, "Steam.exe"), Ok(true));
    assert_eq!(add_tracked_app(&mut c, "STEAM.EXE"), Ok(false));
    assert_eq!(add_tracked_app(&mut c, " steam.exe "), Ok(false));
    assert_eq!(c.tracked_apps, vec!["Steam.exe".to_string()]);
}

#[test]
fn remove_drops_every_match() {
    let mut c = Config::default();
    c.tracked_apps = vec!["a.exe".into(), "B.exe".into(), "A.EXE".into(), "c.exe".into()];
    assert!(remove_tracked_app(&mut c, "a.Exe"));
    assert_eq!(c.tracked_apps, vec!["B.exe".to_string(), "c.exe".to_string()]);
    assert!(!remove_tracked_app(&mut c, "zzz"));
    assert_eq!(c.tracked_apps.len(), 2);
}

#[test]
fn remove_undoes_add() {
    let mut c = Config::default();
    c.tracked_apps = vec!["x.exe".into()];
    let before = c.tracked_apps.clone();
    assert_eq!(add_tracked_app(&mut c, "slack.exe"), Ok(true));
    assert!(remove_tracked_app(&mut c, "slack.exe"));
    assert_eq!(c.tracked_apps, before);
}

#[test]
fn usage_minutes_range() {
    let mut c = Config::default();
    assert_eq!(set_usage_minutes(&mut c, 0), Err(CommandError::UsageMinutesOutOfRange));
    assert_eq!(set_usage_minutes(&mut c, 601), Err(CommandError::UsageMinutesOutOfRange));
    assert_eq!(c.usage_minutes, 45);
    assert_eq!(set_usage_minutes(&mut c, 1), Ok(()));
    assert_eq!(c.usage_minutes, 1);
    assert_eq!(set_usage_minutes(&mut c, 600), Ok(()));
    assert_eq!(c.usage_minutes, 600);
}

#[test]
fn break_minutes_range() {
    let mut c = Config::default();
    assert_eq!(set_break_minutes(&mut c, 0), Err(CommandError::BreakMinutesOutOfRange));
    assert_eq!(set_break_minutes(&mut c, 61), Err(CommandError::BreakMinutesOutOfRange));
    assert_eq!(c.break_minutes, 5);
    assert_eq!(set_break_minutes(&mut c, 60), Ok(()));
    assert_eq!(c.break_minutes, 60);
}

#[test]
fn autostart_actions() {
    assert_eq!(autostart_action(true, false), AutostartAction::Enable);
    assert_eq!(autostart_action(false, true), AutostartAction::Disable);
    assert_eq!(autostart_action(true, true), AutostartAction::Keep);
    assert_eq!(autostart_action(false, false), AutostartAction::Keep);
}

#[test]
fn snooze_command() {
    let (mut m, _) = BudgetMachine::load(Some(Config::default()), Some(AppState::Idle { remaining_secs: 3 }), 0);
    assert_eq!(snooze(&mut m, 0, 100), Err(CommandError::ZeroSnooze));
    assert_eq!(m.state, AppState::Idle { remaining_secs: 3 });
    let t = snooze(&mut m, 1800, 100).unwrap();
    assert_eq!(t.from, AppState::Idle { remaining_secs: 3 });
    assert_eq!(t.to, AppState::Snoozed { until_unix: 1900 });
    assert_eq!(m.state, AppState::Snoozed { until_unix: 1900 });
}

#[test]
fn monitors_are_named_and_primary_marked() {
    let ms = vec![
        MonitorSource { name: Some("DELL".into()), x: 0, y: 0, width: 1920, height: 1080 },
        MonitorSource { name: None, x: 1920, y: 0, width: 2560, height: 1440 },
    ];
    let infos = list_monitors(&ms, &Some("DELL".to_string()));
    assert_eq!(infos.len(), 2);
    assert_eq!(infos[0].index, 0);
    assert_eq!(infos[0].name, "DELL");
    assert!(infos[0].is_primary);
    assert_eq!(infos[1].index, 1);
    assert_eq!(infos[1].name, "Monitor 2");
    assert!(!infos[1].is_primary);
    assert_eq!((infos[1].x, infos[1].y, infos[1].width, infos[1].height), (1920, 0, 2560, 1440));
    let none = list_monitors(&ms, &None);
    assert!(!none[0].is_primary);
}

#[test]
fn unnamed_primary_matches_generated_name() {
    let ms = vec![MonitorSource { name: None, x: 0, y: 0, width: 10, height: 10 }];
    let infos = list_monitors(&ms, &Some("Monitor 1".to_string()));
    assert!(infos[0].is_primary);
}
