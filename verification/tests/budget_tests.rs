use pawse::budget::{
    apply_launch_rules, fresh_idle, load_or_init_config, load_or_init_state,
    minutes_to_budget_secs, AppState, BudgetMachine, Config, Transition,
};
use pawse::sensing::ForegroundSnapshot;

const SEC: u64 = 1_000_000_000;

fn config_with(apps: &[&str]) -> Config {
    let mut c = Config::default();
    c.tracked_apps = apps.iter().map(|s| s.to_string()).collect();
    c
}

fn snap(exe: Option<&str>, idle: u64, fullscreen: bool) -> ForegroundSnapshot {
    ForegroundSnapshot {
        exe: exe.map(|s| s.to_string()),
        idle_for_secs: idle,
        is_fullscreen: fullscreen,
        monitor_index: None,
        monitor: None,
    }
}

fn machine(config: Config, state: AppState, now: u64) -> BudgetMachine {
    let (m, _) = BudgetMachine::load(Some(config), Some(state), now);
    m
}

#[test]
fn default_config_values() {
    let c = Config::default();
    assert!(c.tracked_apps.is_empty());
    assert_eq!(c.usage_minutes, 45);
    assert_eq!(c.break_minutes, 5);
    assert_eq!(c.idle_grace_secs, 60);
    assert!(!c.autostart);
}

#[test]
fn kind_labels() {
    assert_eq!(AppState::Idle { remaining_secs: 3 }.kind_label(), "idle");
    assert_eq!(AppState::Active { remaining_secs: 3 }.kind_label(), "active");
    assert_eq!(AppState::Break { remaining_secs: 3 }.kind_label(), "break");
    assert_eq!(AppState::DeferredBreak.kind_label(), "deferred_break");
    assert_eq!(AppState::Snoozed { until_unix: 9 }.kind_label(), "snoozed");
}

#[test]
fn same_kind_ignores_payload() {
    assert!(AppState::Idle { remaining_secs: 1 }.same_kind(&AppState::Idle { remaining_secs: 2 }));
    assert!(!AppState::Idle { remaining_secs: 1 }.same_kind(&AppState::Active { remaining_secs: 1 }));
    assert!(AppState::DeferredBreak.same_kind(&AppState::DeferredBreak));
}

#[test]
fn budget_secs_saturates_and_is_positive() {
    assert_eq!(minutes_to_budget_secs(45), 2700);
    assert_eq!(minutes_to_budget_secs(0), 1);
    assert_eq!(minutes_to_budget_secs(u32::MAX), u32::MAX);
    assert_eq!(minutes_to_budget_secs(u32::MAX / 60), (u32::MAX / 60) * 60);
}

#[test]
fn launch_rules_forfeit_break() {
    let c = Config::default();
    assert_eq!(apply_launch_rules(AppState::Break { remaining_secs: 100 }, &c), AppState::Idle { remaining_secs: 0 });
    assert_eq!(apply_launch_rules(AppState::DeferredBreak, &c), AppState::Idle { remaining_secs: 0 });
    assert_eq!(apply_launch_rules(AppState::Active { remaining_secs: 7 }, &c), AppState::Active { remaining_secs: 7 });
    assert_eq!(apply_launch_rules(AppState::Snoozed { until_unix: 5 }, &c), AppState::Snoozed { until_unix: 5 });
}

#[test]
fn fresh_start_is_idle_with_full_budget() {
    let c = Config::default();
    assert_eq!(fresh_idle(&c), AppState::Idle { remaining_secs: 2700 });
    assert_eq!(load_or_init_state(None, &c), AppState::Idle { remaining_secs: 2700 });
}

#[test]
fn budget_survives_restart() {
    let c = Config::default();
    let s = AppState::Idle { remaining_secs: 1234 };
    assert_eq!(load_or_init_state(Some(s), &c), s);
    let (m, write) = BudgetMachine::load(Some(c), Some(AppState::Active { remaining_secs: 99 }), 5);
    assert!(!write);
    assert_eq!(m.state, AppState::Active { remaining_secs: 99 });
    assert_eq!(m.last_tick, 5);
    assert_eq!(m.last_save, 5);
}

#[test]
fn missing_config_is_defaulted_and_written() {
    let (c, write) = load_or_init_config(None);
    assert!(write);
    assert_eq!(c.usage_minutes, 45);
    let mut custom = Config::default();
    custom.usage_minutes = 10;
    let (c2, write2) = load_or_init_config(Some(custom));
    assert!(!write2);
    assert_eq!(c2.usage_minutes, 10);
    let (m, write3) = BudgetMachine::load(None, None, 0);
    assert!(write3);
    assert_eq!(m.state, AppState::Idle { remaining_secs: 2700 });
}

#[test]
fn idle_becomes_active_on_tracked_app() {
    let mut m = machine(config_with(&["Discord.exe"]), AppState::Idle { remaining_secs: 100 }, 0);
    let (t, save) = m.tick(&snap(Some("discord.EXE"), 3, false), SEC, 0);
    assert_eq!(m.state, AppState::Active { remaining_secs: 100 });
    assert_eq!(
        t,
        Some(Transition { from: AppState::Idle { remaining_secs: 100 }, to: AppState::Active { remaining_secs: 100 } })
    );
    assert!(save);
    assert_eq!(m.last_save, SEC);
    assert_eq!(m.last_tick, SEC);
}

#[test]
fn untracked_or_away_keeps_idle() {
    let mut m = machine(config_with(&["Discord.exe"]), AppState::Idle { remaining_secs: 100 }, 0);
    let (t, save) = m.tick(&snap(Some("steam.exe"), 0, false), 5 * SEC, 0);
    assert_eq!(m.state, AppState::Idle { remaining_secs: 100 });
    assert_eq!(t, None);
    assert!(!save);
    let (t2, _) = m.tick(&snap(Some("discord.exe"), 60, false), 6 * SEC, 0);
    assert_eq!(m.state, AppState::Idle { remaining_secs: 100 });
    assert_eq!(t2, None);
    let (t3, _) = m.tick(&snap(None, 0, false), 7 * SEC, 0);
    assert_eq!(t3, None);
}

#[test]
fn active_drains_by_whole_elapsed_seconds() {
    let mut m = machine(config_with(&["a.exe"]), AppState::Active { remaining_secs: 100 }, 0);
    let (t, save) = m.tick(&snap(Some("a.exe"), 0, false), 2 * SEC + SEC / 2, 0);
    assert_eq!(m.state, AppState::Active { remaining_secs: 98 });
    assert_eq!(t, None);
    assert!(!save);
}

#[test]
fn active_goes_idle_when_user_leaves() {
    let mut m = machine(config_with(&["a.exe"]), AppState::Active { remaining_secs: 100 }, 0);
    let (t, _) = m.tick(&snap(Some("b.exe"), 0, false), 10 * SEC, 0);
    assert_eq!(m.state, AppState::Idle { remaining_secs: 100 });
    assert!(t.is_some());
}

#[test]
fn budget_runs_out_into_break() {
    let mut c = config_with(&["a.exe"]);
    c.break_minutes = 2;
    let mut m = machine(c, AppState::Active { remaining_secs: 3 }, 0);
    let (t, save) = m.tick(&snap(Some("a.exe"), 0, false), 5 * SEC, 0);
    assert_eq!(m.state, AppState::Break { remaining_secs: 120 });
    assert_eq!(t.unwrap().from, AppState::Active { remaining_secs: 3 });
    assert!(save);
}

#[test]
fn fullscreen_defers_break_until_exit() {
    let mut m = machine(config_with(&["game.exe"]), AppState::Active { remaining_secs: 1 }, 0);
    m.tick(&snap(Some("game.exe"), 0, true), 2 * SEC, 0);
    assert_eq!(m.state, AppState::DeferredBreak);
    let (t, _) = m.tick(&snap(Some("game.exe"), 0, true), 3 * SEC, 0);
    assert_eq!(m.state, AppState::DeferredBreak);
    assert_eq!(t, None);
    m.tick(&snap(Some("game.exe"), 0, false), 4 * SEC, 0);
    assert_eq!(m.state, AppState::Break { remaining_secs: 300 });
}

#[test]
fn break_counts_down_then_refills() {
    let mut m = machine(Config::default(), AppState::Idle { remaining_secs: 0 }, 0);
    m.state = AppState::Break { remaining_secs: 10 };
    m.tick(&snap(None, 0, false), 4 * SEC, 0);
    assert_eq!(m.state, AppState::Break { remaining_secs: 6 });
    let (t, _) = m.tick(&snap(None, 0, false), 20 * SEC, 0);
    assert_eq!(m.state, AppState::Active { remaining_secs: 2700 });
    assert!(t.is_some());
}

#[test]
fn snooze_holds_until_expiry() {
    let mut m = machine(config_with(&["a.exe"]), AppState::Active { remaining_secs: 50 }, 0);
    let t = m.snooze_for(600, 1000);
    assert_eq!(t.from, AppState::Active { remaining_secs: 50 });
    assert_eq!(t.to, AppState::Snoozed { until_unix: 1600 });
    m.tick(&snap(Some("a.exe"), 0, true), SEC, 1599);
    assert_eq!(m.state, AppState::Snoozed { until_unix: 1600 });
    m.tick(&snap(None, 0, false), 2 * SEC, 1600);
    assert_eq!(m.state, AppState::Active { remaining_secs: 2700 });
}

#[test]
fn heartbeat_saves_after_a_minute() {
    let mut m = machine(Config::default(), AppState::Idle { remaining_secs: 5 }, 0);
    let (_, save) = m.tick(&snap(None, 0, false), 59 * SEC, 0);
    assert!(!save);
    assert_eq!(m.last_save, 0);
    let (_, save2) = m.tick(&snap(None, 0, false), 60 * SEC, 0);
    assert!(save2);
    assert_eq!(m.last_save, 60 * SEC);
}

#[test]
fn clock_going_backwards_counts_as_no_time() {
    let mut m = machine(config_with(&["a.exe"]), AppState::Active { remaining_secs: 9 }, 10 * SEC);
    m.tick(&snap(Some("a.exe"), 0, false), 5 * SEC, 0);
    assert_eq!(m.state, AppState::Active { remaining_secs: 9 });
}

#[test]
fn idle_zero_budget_breaks_on_next_use() {
    let mut c = config_with(&["a.exe"]);
    c.break_minutes = 1;
    // a restart forfeits the break
    let mut m = machine(c, AppState::Break { remaining_secs: 10 }, 0);
    assert_eq!(m.state, AppState::Idle { remaining_secs: 0 });
    m.tick(&snap(Some("a.exe"), 0, false), 0, 0);
    assert_eq!(m.state, AppState::Active { remaining_secs: 0 });
    m.tick(&snap(Some("a.exe"), 0, false), 0, 0);
    assert_eq!(m.state, AppState::Break { remaining_secs: 60 });
}

#[test]
fn elapsed_saturates_at_u32_max() {
    // (2^32 + 1) whole seconds elapse: more than any budget
    let mut m = machine(config_with(&["a.exe"]), AppState::Active { remaining_secs: 9 }, 0);
    m.tick(&snap(Some("a.exe"), 0, false), ((1u64 << 32) + 1) * SEC, 0);
    assert_eq!(m.state, AppState::Break { remaining_secs: 300 });
}
