//! The usage-budget state machine: how much tracked-app time is left, when a
//! break starts and ends, deferral while a fullscreen window is in front, and
//! snoozing.
use vstd::prelude::*;

use crate::sensing::ForegroundSnapshot;
use crate::text::{ascii_eq_ignore_case, eq_ignore_ascii_case};

verus! {

/// Seconds in a minute.
pub const SECS_PER_MINUTE: u32 = 60;

/// Nanoseconds in a second.
pub const NANOS_PER_SEC: u64 = 1_000_000_000;

/// The state file is rewritten at least this often (in seconds) while ticking.
pub const SAVE_HEARTBEAT_SECS: u64 = 60;

/// The user's settings.
#[derive(Debug, Clone)]
pub struct Config {
    /// Executable names whose use draws down the budget (compared ignoring
    /// ASCII case).
    pub tracked_apps: Vec<String>,
    /// Length of a full usage budget, in minutes.
    pub usage_minutes: u32,
    /// Length of a break, in minutes.
    pub break_minutes: u32,
    /// Seconds without input after which the user counts as away.
    pub idle_grace_secs: u32,
    /// Whether the app starts with the session.
    pub autostart: bool,
}

/// The settings that a fresh install starts with.
pub open spec fn is_default_config(c: Config) -> bool {
    &&& c.tracked_apps@.len() == 0
    &&& c.usage_minutes == 45
    &&& c.break_minutes == 5
    &&& c.idle_grace_secs == 60
    &&& !c.autostart
}

impl Default for Config {
    fn default() -> (c: Self)
        ensures
            is_default_config(c),
    {
        Config {
            tracked_apps: Vec::new(),
            usage_minutes: 45,
            break_minutes: 5,
            idle_grace_secs: 60,
            autostart: false,
        }
    }
}

/// Where the budget stands.
#[derive(Debug, Clone, Copy, PartialEq, Eq, Structural)]
pub enum AppState {
    /// No tracked app in use; `remaining_secs` of budget left.
    Idle { remaining_secs: u32 },
    /// A tracked app is in use and the budget drains.
    Active { remaining_secs: u32 },
    /// The break reminder is showing for `remaining_secs` more seconds.
    Break { remaining_secs: u32 },
    /// The budget ran out while a fullscreen window was in front.
    DeferredBreak,
    /// Tracking is paused until the given Unix time (seconds).
    Snoozed { until_unix: u64 },
}

/// Whether two states are the same variant, whatever their payload.
pub open spec fn same_kind_spec(a: AppState, b: AppState) -> bool {
    ||| a is Idle && b is Idle
    ||| a is Active && b is Active
    ||| a is Break && b is Break
    ||| a is DeferredBreak && b is DeferredBreak
    ||| a is Snoozed && b is Snoozed
}

/// The label of a state's variant.
pub open spec fn kind_label_spec(s: AppState) -> Seq<char> {
    match s {
        AppState::Idle { .. } => "idle"@,
        AppState::Active { .. } => "active"@,
        AppState::Break { .. } => "break"@,
        AppState::DeferredBreak => "deferred_break"@,
        AppState::Snoozed { .. } => "snoozed"@,
    }
}

impl AppState {
    /// The variant's name in snake case.
    pub fn kind_label(&self) -> (r: &'static str)
        ensures
            r@ == kind_label_spec(*self),
    {
        match self {
            AppState::Idle { .. } => "idle",
            AppState::Active { .. } => "active",
            AppState::Break { .. } => "break",
            AppState::DeferredBreak => "deferred_break",
            AppState::Snoozed { .. } => "snoozed",
        }
    }

    /// Whether `self` and `other` are the same variant.
    pub fn same_kind(&self, other: &AppState) -> (r: bool)
        ensures
            r == same_kind_spec(*self, *other),
    {
        match (self, other) {
            (AppState::Idle { .. }, AppState::Idle { .. }) => true,
            (AppState::Active { .. }, AppState::Active { .. }) => true,
            (AppState::Break { .. }, AppState::Break { .. }) => true,
            (AppState::DeferredBreak, AppState::DeferredBreak) => true,
            (AppState::Snoozed { .. }, AppState::Snoozed { .. }) => true,
            _ => false,
        }
    }
}

/// A change of variant, reported to listeners.
#[derive(Debug, Clone, Copy, PartialEq, Eq, Structural)]
pub struct Transition {
    pub from: AppState,
    pub to: AppState,
}

/// `minutes * 60`, saturating at `u32::MAX`, and at least 1.
pub open spec fn budget_secs(minutes: u32) -> u32 {
    if minutes * 60 > u32::MAX {
        u32::MAX
    } else if minutes == 0 {
        1
    } else {
        (minutes * 60) as u32
    }
}

/// Executable `budget_secs`.
pub fn minutes_to_budget_secs(minutes: u32) -> (r: u32)
    ensures
        r == budget_secs(minutes),
{
    let secs = if minutes > u32::MAX / SECS_PER_MINUTE {
        u32::MAX
    } else {
        minutes * SECS_PER_MINUTE
    };
    if secs < 1 {
        1
    } else {
        secs
    }
}

/// Some entry of `apps` names `exe`, ignoring ASCII case.
pub open spec fn names_app(apps: Seq<String>, exe: Seq<char>) -> bool {
    exists|i: int| 0 <= i < apps.len() && ascii_eq_ignore_case(#[trigger] apps[i]@, exe)
}

/// Whether some entry of `apps` names `exe`, ignoring ASCII case.
pub fn contains_app(apps: &Vec<String>, exe: &str) -> (r: bool)
    ensures
        r == names_app(apps@, exe@),
{
    let n = apps.len();
    let mut i: usize = 0;
    while i < n
        invariant
            n == apps@.len(),
            i <= n,
            forall|j: int| 0 <= j < i ==> !ascii_eq_ignore_case(#[trigger] apps@[j]@, exe@),
        decreases n - i,
    {
        if eq_ignore_ascii_case(apps[i].as_str(), exe) {
            return true;
        }
        i = i + 1;
    }
    false
}

/// The foreground app is tracked and the user has given input within the
/// grace period.
pub open spec fn is_active_spec(config: Config, snap: ForegroundSnapshot) -> bool {
    &&& snap.exe matches Some(exe) && names_app(config.tracked_apps@, exe@)
    &&& snap.idle_for_secs < config.idle_grace_secs
}

/// The state after one tick, from the state before it, the settings, whether
/// the user is actively using a tracked app, whether the foreground window is
/// fullscreen, the whole seconds since the last tick and the Unix time now.
pub open spec fn next_state(
    state: AppState,
    config: Config,
    active: bool,
    fullscreen: bool,
    elapsed_secs: u32,
    now_unix: u64,
) -> AppState {
    match state {
        AppState::Idle { remaining_secs } => {
            if active {
                AppState::Active { remaining_secs }
            } else {
                AppState::Idle { remaining_secs }
            }
        },
        AppState::Active { remaining_secs } => {
            if !active {
                AppState::Idle { remaining_secs }
            } else if remaining_secs.saturating_sub(elapsed_secs) == 0 {
                if fullscreen {
                    AppState::DeferredBreak
                } else {
                    AppState::Break { remaining_secs: budget_secs(config.break_minutes) }
                }
            } else {
                AppState::Active { remaining_secs: remaining_secs.saturating_sub(elapsed_secs) }
            }
        },
        AppState::DeferredBreak => {
            if fullscreen {
                AppState::DeferredBreak
            } else {
                AppState::Break { remaining_secs: budget_secs(config.break_minutes) }
            }
        },
        AppState::Break { remaining_secs } => {
            if remaining_secs.saturating_sub(elapsed_secs) == 0 {
                AppState::Active { remaining_secs: budget_secs(config.usage_minutes) }
            } else {
                AppState::Break { remaining_secs: remaining_secs.saturating_sub(elapsed_secs) }
            }
        },
        AppState::Snoozed { until_unix } => {
            if now_unix >= until_unix {
                AppState::Active { remaining_secs: budget_secs(config.usage_minutes) }
            } else {
                AppState::Snoozed { until_unix }
            }
        },
    }
}

/// The transition that a move from `prev` to `next` reports, if any.
pub open spec fn transition_spec(prev: AppState, next: AppState) -> Option<Transition> {
    if same_kind_spec(prev, next) {
        None
    } else {
        Some(Transition { from: prev, to: next })
    }
}

/// Whole seconds between two readings of the monotonic clock (in
/// nanoseconds), zero when `now` is the earlier one.
pub open spec fn whole_secs_between(earlier: u64, now: u64) -> u64 {
    (now.saturating_sub(earlier) / NANOS_PER_SEC) as u64
}

/// `secs` as a `u32`, saturating at `u32::MAX`.
pub open spec fn saturate_u32(secs: u64) -> u32 {
    if secs > u32::MAX {
        u32::MAX
    } else {
        secs as u32
    }
}

/// Executable `saturate_u32`.
pub fn saturating_u32(secs: u64) -> (r: u32)
    ensures
        r == saturate_u32(secs),
{
    if secs > u32::MAX as u64 {
        u32::MAX
    } else {
        secs as u32
    }
}

/// The state that the launch rules make of a persisted state: an interrupted
/// break is forfeited, leaving an idle state with an empty budget.
pub open spec fn launch_state(persisted: AppState) -> AppState {
    match persisted {
        AppState::Break { .. } | AppState::DeferredBreak => AppState::Idle { remaining_secs: 0 },
        other => other,
    }
}

/// The state that a fresh start begins in: idle with a full budget.
pub open spec fn fresh_idle_spec(config: Config) -> AppState {
    AppState::Idle { remaining_secs: budget_secs(config.usage_minutes) }
}

/// The state that launch begins in, from what the state file held (`None`
/// when it was missing or could not be read).
pub open spec fn initial_state(persisted: Option<AppState>, config: Config) -> AppState {
    match persisted {
        Some(s) => launch_state(s),
        None => fresh_idle_spec(config),
    }
}

/// The state machine with its settings and the clock readings of its last
/// tick and last save.
pub struct BudgetMachine {
    pub config: Config,
    pub state: AppState,
    /// Monotonic clock reading (nanoseconds) of the last tick.
    pub last_tick: u64,
    /// Monotonic clock reading (nanoseconds) of the last save of the state.
    pub last_save: u64,
}

impl BudgetMachine {
    /// The machine at launch, from the contents of the settings file and the
    /// state file (`None` where a file was missing or could not be parsed) and
    /// the monotonic clock now. The flag is set when the settings file has to
    /// be written with the defaults.
    pub fn load(
        persisted_config: Option<Config>,
        persisted_state: Option<AppState>,
        now_nanos: u64,
    ) -> (res: (BudgetMachine, bool))
        ensures
            match persisted_config {
                Some(c) => res.0.config == c,
                None => is_default_config(res.0.config),
            },
            res.1 == persisted_config is None,
            res.0.state == initial_state(persisted_state, res.0.config),
            res.0.last_tick == now_nanos,
            res.0.last_save == now_nanos,
    {
        let (config, write_defaults) = load_or_init_config(persisted_config);
        let state = load_or_init_state(persisted_state, &config);
        (BudgetMachine { config, state, last_tick: now_nanos, last_save: now_nanos }, write_defaults)
    }

    /// Advances the machine by one sensing tick, given the foreground
    /// snapshot, the monotonic clock (nanoseconds) and the Unix time
    /// (seconds). Returns the change of variant, if any, and whether the
    /// state has to be saved now.
    pub fn tick(&mut self, snap: &ForegroundSnapshot, now_nanos: u64, now_unix: u64) -> (res: (
        Option<Transition>,
        bool,
    ))
        ensures
            final(self).config == old(self).config,
            final(self).state == next_state(
                old(self).state,
                old(self).config,
                is_active_spec(old(self).config, *snap),
                snap.is_fullscreen,
                saturate_u32(whole_secs_between(old(self).last_tick, now_nanos)),
                now_unix,
            ),
            res.0 == transition_spec(old(self).state, final(self).state),
            res.1 == (res.0 is Some || whole_secs_between(old(self).last_save, now_nanos)
                >= SAVE_HEARTBEAT_SECS),
            old(self).state is Active && is_active_spec(old(self).config, *snap)
                && old(self).state->Active_remaining_secs > saturate_u32(
                whole_secs_between(old(self).last_tick, now_nanos),
            ) ==> final(self).state == (AppState::Active {
                remaining_secs: (old(self).state->Active_remaining_secs - saturate_u32(
                    whole_secs_between(old(self).last_tick, now_nanos),
                )) as u32,
            }),
            final(self).last_tick == now_nanos,
            final(self).last_save == if res.1 {
                now_nanos
            } else {
                old(self).last_save
            },
    {
        let elapsed_secs = saturating_u32(now_nanos.saturating_sub(self.last_tick) / NANOS_PER_SEC);
        self.last_tick = now_nanos;

        let is_tracked = match &snap.exe {
            Some(exe) => contains_app(&self.config.tracked_apps, exe.as_str()),
            None => false,
        };
        let is_active = is_tracked && snap.idle_for_secs < self.config.idle_grace_secs as u64;

        let prev = self.state;
        let next = match prev {
            AppState::Idle { remaining_secs } => {
                if is_active {
                    AppState::Active { remaining_secs }
                } else {
                    AppState::Idle { remaining_secs }
                }
            },
            AppState::Active { remaining_secs } => {
                if !is_active {
                    AppState::Idle { remaining_secs }
                } else {
                    let next = remaining_secs.saturating_sub(elapsed_secs);
                    if next == 0 {
                        let break_secs = minutes_to_budget_secs(self.config.break_minutes);
                        if snap.is_fullscreen {
                            AppState::DeferredBreak
                        } else {
                            AppState::Break { remaining_secs: break_secs }
                        }
                    } else {
                        AppState::Active { remaining_secs: next }
                    }
                }
            },
            AppState::DeferredBreak => {
                if snap.is_fullscreen {
                    AppState::DeferredBreak
                } else {
                    let break_secs = minutes_to_budget_secs(self.config.break_minutes);
                    AppState::Break { remaining_secs: break_secs }
                }
            },
            AppState::Break { remaining_secs } => {
                let next = remaining_secs.saturating_sub(elapsed_secs);
                if next == 0 {
                    AppState::Active {
                        remaining_secs: minutes_to_budget_secs(self.config.usage_minutes),
                    }
                } else {
                    AppState::Break { remaining_secs: next }
                }
            },
            AppState::Snoozed { until_unix } => {
                if now_unix >= until_unix {
                    AppState::Active {
                        remaining_secs: minutes_to_budget_secs(self.config.usage_minutes),
                    }
                } else {
                    AppState::Snoozed { until_unix }
                }
            },
        };
        self.state = next;

        let transition = if !prev.same_kind(&next) {
            Some(Transition { from: prev, to: next })
        } else {
            None
        };

        let needs_save = transition.is_some() || now_nanos.saturating_sub(self.last_save)
            / NANOS_PER_SEC >= SAVE_HEARTBEAT_SECS;
        if needs_save {
            self.last_save = now_nanos;
        }
        (transition, needs_save)
    }

    /// Pauses tracking for `secs` seconds from the Unix time `now_unix`, and
    /// reports the change.
    pub fn snooze_for(&mut self, secs: u64, now_unix: u64) -> (t: Transition)
        requires
            now_unix + secs <= u64::MAX,
        ensures
            final(self).state == (AppState::Snoozed { until_unix: (now_unix + secs) as u64 }),
            t == (Transition { from: old(self).state, to: final(self).state }),
            final(self).config == old(self).config,
            final(self).last_tick == old(self).last_tick,
            final(self).last_save == old(self).last_save,
    {
        let prev = self.state;
        self.state = AppState::Snoozed { until_unix: now_unix + secs };
        Transition { from: prev, to: self.state }
    }
}

/// The settings to run with, from what the settings file held (`None` when it
/// was missing or could not be parsed), and whether the defaults have to be
/// written back.
pub fn load_or_init_config(persisted: Option<Config>) -> (res: (Config, bool))
    ensures
        match persisted {
            Some(c) => res.0 == c,
            None => is_default_config(res.0),
        },
        res.1 == persisted is None,
{
    match persisted {
        Some(c) => (c, false),
        None => (Config::default(), true),
    }
}

/// The state to run with, from what the state file held (`None` when it was
/// missing or could not be parsed).
pub fn load_or_init_state(persisted: Option<AppState>, config: &Config) -> (s: AppState)
    ensures
        s == initial_state(persisted, *config),
{
    match persisted {
        Some(state) => apply_launch_rules(state, config),
        None => fresh_idle(config),
    }
}

/// Idle with a full budget.
pub fn fresh_idle(config: &Config) -> (s: AppState)
    ensures
        s == fresh_idle_spec(*config),
{
    AppState::Idle { remaining_secs: minutes_to_budget_secs(config.usage_minutes) }
}

/// Forfeit rule: quitting during a break does not earn a refilled budget; the
/// next use of a tracked app starts another break at once.
pub fn apply_launch_rules(persisted: AppState, _config: &Config) -> (s: AppState)
    ensures
        s == launch_state(persisted),
{
    match persisted {
        AppState::Break { .. } | AppState::DeferredBreak => AppState::Idle { remaining_secs: 0 },
        other => other,
    }
}

/// A break always has time left: whatever the inputs, a tick that ends in a
/// break ends with at least one second of it remaining.
pub proof fn lemma_break_has_time_left(
    state: AppState,
    config: Config,
    active: bool,
    fullscreen: bool,
    elapsed_secs: u32,
    now_unix: u64,
)
    ensures
        next_state(state, config, active, fullscreen, elapsed_secs, now_unix) matches AppState::Break {
            remaining_secs,
        } ==> remaining_secs >= 1,
{
}

/// The budget does not drain while no tracked app is in active use: an idle
/// or active state becomes (or stays) idle with the same remaining budget.
pub proof fn lemma_inactivity_keeps_budget(
    remaining_secs: u32,
    was_active: bool,
    config: Config,
    fullscreen: bool,
    elapsed_secs: u32,
    now_unix: u64,
)
    ensures
        next_state(
            if was_active {
                AppState::Active { remaining_secs }
            } else {
                AppState::Idle { remaining_secs }
            },
            config,
            false,
            fullscreen,
            elapsed_secs,
            now_unix,
        ) == (AppState::Idle { remaining_secs }),
{
}

/// Focusing a tracked app carries the idle budget over unchanged.
pub proof fn lemma_activity_resumes_budget(
    remaining_secs: u32,
    config: Config,
    fullscreen: bool,
    elapsed_secs: u32,
    now_unix: u64,
)
    ensures
        next_state(
            AppState::Idle { remaining_secs },
            config,
            true,
            fullscreen,
            elapsed_secs,
            now_unix,
        ) == (AppState::Active { remaining_secs }),
{
}

/// While active, the budget only shrinks, by exactly the elapsed seconds.
pub proof fn lemma_active_budget_drains(
    remaining_secs: u32,
    config: Config,
    fullscreen: bool,
    elapsed_secs: u32,
    now_unix: u64,
)
    ensures
        next_state(
            AppState::Active { remaining_secs },
            config,
            true,
            fullscreen,
            elapsed_secs,
            now_unix,
        ) matches AppState::Active { remaining_secs: left } ==> left == remaining_secs
            - elapsed_secs && left <= remaining_secs,
{
}

/// A budget that is not yet spent keeps draining while a tracked app is in
/// active use, fullscreen or not: no break is started or queued early.
pub proof fn lemma_unspent_budget_keeps_draining(
    remaining_secs: u32,
    config: Config,
    fullscreen: bool,
    elapsed_secs: u32,
    now_unix: u64,
)
    requires
        remaining_secs > elapsed_secs,
    ensures
        next_state(
            AppState::Active { remaining_secs },
            config,
            true,
            fullscreen,
            elapsed_secs,
            now_unix,
        ) == (AppState::Active { remaining_secs: (remaining_secs - elapsed_secs) as u32 }),
{
}

/// A break never starts while the foreground window is fullscreen.
pub proof fn lemma_fullscreen_defers_break(
    state: AppState,
    config: Config,
    active: bool,
    elapsed_secs: u32,
    now_unix: u64,
)
    requires
        !(state is Break),
    ensures
        !(next_state(state, config, active, true, elapsed_secs, now_unix) is Break),
{
}

/// A break starts only when an active budget is spent or a deferred break
/// meets a window that is not fullscreen, and it lasts the configured break.
pub proof fn lemma_break_starts_only_when_due(
    state: AppState,
    config: Config,
    active: bool,
    fullscreen: bool,
    elapsed_secs: u32,
    now_unix: u64,
)
    requires
        !(state is Break),
        next_state(state, config, active, fullscreen, elapsed_secs, now_unix) is Break,
    ensures
        !fullscreen,
        (state matches AppState::Active { remaining_secs } && active && remaining_secs
            <= elapsed_secs) || state is DeferredBreak,
        next_state(state, config, active, fullscreen, elapsed_secs, now_unix) == (AppState::Break {
            remaining_secs: budget_secs(config.break_minutes),
        }),
{
}

/// An active budget that runs out starts the break, or defers it while the
/// foreground window is fullscreen.
pub proof fn lemma_spent_budget_starts_break(
    remaining_secs: u32,
    config: Config,
    fullscreen: bool,
    elapsed_secs: u32,
    now_unix: u64,
)
    requires
        remaining_secs <= elapsed_secs,
    ensures
        next_state(
            AppState::Active { remaining_secs },
            config,
            true,
            fullscreen,
            elapsed_secs,
            now_unix,
        ) == if fullscreen {
            AppState::DeferredBreak
        } else {
            AppState::Break { remaining_secs: budget_secs(config.break_minutes) }
        },
{
}

/// A deferred break starts as soon as the foreground window is no longer
/// fullscreen, whatever else happens.
pub proof fn lemma_deferred_break_starts_on_exit(
    config: Config,
    active: bool,
    elapsed_secs: u32,
    now_unix: u64,
)
    ensures
        next_state(AppState::DeferredBreak, config, active, false, elapsed_secs, now_unix) == (
        AppState::Break { remaining_secs: budget_secs(config.break_minutes) }),
        next_state(AppState::DeferredBreak, config, active, true, elapsed_secs, now_unix)
            == AppState::DeferredBreak,
{
}

/// A finished break (or an expired snooze) refills the budget in full.
pub proof fn lemma_refill_after_break_or_snooze(
    state: AppState,
    config: Config,
    active: bool,
    fullscreen: bool,
    elapsed_secs: u32,
    now_unix: u64,
)
    requires
        state matches AppState::Break { remaining_secs } ==> remaining_secs <= elapsed_secs,
        state matches AppState::Snoozed { until_unix } ==> until_unix <= now_unix,
        state is Break || state is Snoozed,
    ensures
        next_state(state, config, active, fullscreen, elapsed_secs, now_unix) == (AppState::Active {
            remaining_secs: budget_secs(config.usage_minutes),
        }),
{
}

/// A snooze holds, whatever the user does, until its end time.
pub proof fn lemma_snooze_holds(
    until_unix: u64,
    config: Config,
    active: bool,
    fullscreen: bool,
    elapsed_secs: u32,
    now_unix: u64,
)
    requires
        now_unix < until_unix,
    ensures
        next_state(
            AppState::Snoozed { until_unix },
            config,
            active,
            fullscreen,
            elapsed_secs,
            now_unix,
        ) == (AppState::Snoozed { until_unix }),
{
}

/// The budget survives a restart: every persisted state but an interrupted
/// break is resumed as it was saved.
pub proof fn lemma_budget_survives_restart(persisted: AppState, config: Config)
    requires
        !(persisted is Break),
        !(persisted is DeferredBreak),
    ensures
        initial_state(Some(persisted), config) == persisted,
{
}

/// A full budget and a break are never empty, whatever the configured minutes.
pub proof fn lemma_budget_secs_positive(minutes: u32)
    ensures
        budget_secs(minutes) >= 1,
        minutes <= u32::MAX / 60 ==> budget_secs(minutes) == if minutes == 0 {
            1
        } else {
            minutes * 60
        },
{
}

} // verus!
