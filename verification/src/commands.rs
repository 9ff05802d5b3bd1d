//! What the settings and control commands decide: validating and applying
//! changes to the settings, snoozing, the monitor list and the greeting.
use vstd::prelude::*;
use vstd::string::*;

use crate::budget::{names_app, AppState, BudgetMachine, Config, Transition};
use crate::sensing::names;
use crate::text::{
    ascii_eq_ignore_case, decimal, decimal_seq, eq_ignore_ascii_case,
    lemma_ascii_eq_ignore_case_equivalence, trim, trim_seq,
};

verus! {

/// Longest usage budget that can be set, in minutes.
pub const MAX_USAGE_MINUTES: u32 = 600;

/// Longest break that can be set, in minutes.
pub const MAX_BREAK_MINUTES: u32 = 60;

/// Why a command refused its input.
#[derive(Debug, Clone, Copy, PartialEq, Eq, Structural)]
pub enum CommandError {
    /// The executable name was empty once trimmed.
    EmptyExe,
    /// The usage budget was outside 1..=600 minutes.
    UsageMinutesOutOfRange,
    /// The break length was outside 1..=60 minutes.
    BreakMinutesOutOfRange,
    /// A snooze of zero seconds was asked for.
    ZeroSnooze,
}

/// The message shown for each refusal.
pub open spec fn message_spec(e: CommandError) -> Seq<char> {
    match e {
        CommandError::EmptyExe => "exe cannot be empty"@,
        CommandError::UsageMinutesOutOfRange => "usage_minutes must be 1..=600"@,
        CommandError::BreakMinutesOutOfRange => "break_minutes must be 1..=60"@,
        CommandError::ZeroSnooze => "seconds must be > 0"@,
    }
}

impl CommandError {
    /// The message shown to the user.
    pub fn message(&self) -> (r: String)
        ensures
            r@ == message_spec(*self),
    {
        match self {
            CommandError::EmptyExe => String::from_str("exe cannot be empty"),
            CommandError::UsageMinutesOutOfRange => String::from_str(
                "usage_minutes must be 1..=600",
            ),
            CommandError::BreakMinutesOutOfRange => String::from_str("break_minutes must be 1..=60"),
            CommandError::ZeroSnooze => String::from_str("seconds must be > 0"),
        }
    }
}

/// The greeting for `name`.
pub open spec fn greeting(name: Seq<char>) -> Seq<char> {
    "Hello, "@ + name + "! You've been greeted from Rust!"@
}

/// Greets `name`.
pub fn greet(name: &str) -> (r: String)
    ensures
        r@ == greeting(name@),
{
    let mut s = String::from_str("Hello, ");
    s.append(name);
    s.append("! You've been greeted from Rust!");
    s
}

/// A monitor as the windowing system reports it.
#[derive(Debug, Clone)]
pub struct MonitorSource {
    pub name: Option<String>,
    pub x: i32,
    pub y: i32,
    pub width: u32,
    pub height: u32,
}

/// A monitor as the settings window lists it.
#[derive(Debug, Clone)]
pub struct MonitorInfo {
    pub index: usize,
    pub name: String,
    pub width: u32,
    pub height: u32,
    pub x: i32,
    pub y: i32,
    pub is_primary: bool,
}

/// The name listed for the monitor at `index`: its own name, or "Monitor n"
/// counting from one.
pub open spec fn monitor_name(name: Option<String>, index: nat) -> Seq<char> {
    match name {
        Some(n) => n@,
        None => "Monitor "@ + decimal_seq(index + 1),
    }
}

/// `info` lists `source`, found at `index`, given the primary monitor's name.
pub open spec fn lists_monitor(
    info: MonitorInfo,
    source: MonitorSource,
    index: nat,
    primary_name: Option<String>,
) -> bool {
    &&& info.index == index
    &&& info.name@ == monitor_name(source.name, index)
    &&& info.width == source.width
    &&& info.height == source.height
    &&& info.x == source.x
    &&& info.y == source.y
    &&& info.is_primary == (primary_name matches Some(p) && p@ == info.name@)
}

/// The monitors in the order given, each with its index, a name and whether
/// it is the primary monitor (the one named `primary_name`).
pub fn list_monitors(monitors: &Vec<MonitorSource>, primary_name: &Option<String>) -> (r: Vec<
    MonitorInfo,
>)
    ensures
        r@.len() == monitors@.len(),
        forall|i: int|
            0 <= i < r@.len() ==> lists_monitor(
                #[trigger] r@[i],
                monitors@[i],
                i as nat,
                *primary_name,
            ),
{
    let n = monitors.len();
    let mut out: Vec<MonitorInfo> = Vec::new();
    let mut i: usize = 0;
    while i < n
        invariant
            n == monitors@.len(),
            i <= n,
            out@.len() == i,
            forall|j: int|
                0 <= j < i ==> lists_monitor(#[trigger] out@[j], monitors@[j], j as nat, *primary_name),
        decreases n - i,
    {
        let m = &monitors[i];
        let name = match &m.name {
            Some(s) => s.clone(),
            None => {
                let mut s = String::from_str("Monitor ");
                let number = decimal((i + 1) as u64);
                s.append(number.as_str());
                s
            },
        };
        let is_primary = match primary_name {
            Some(p) => *p == name,
            None => false,
        };
        out.push(
            MonitorInfo {
                index: i,
                name,
                width: m.width,
                height: m.height,
                x: m.x,
                y: m.y,
                is_primary,
            },
        );
        i = i + 1;
    }
    out
}

/// `b` is `a` with nothing changed but the tracked apps.
pub open spec fn same_but_apps(a: Config, b: Config) -> bool {
    &&& a.usage_minutes == b.usage_minutes
    &&& a.break_minutes == b.break_minutes
    &&& a.idle_grace_secs == b.idle_grace_secs
    &&& a.autostart == b.autostart
}

/// Adds an app to the tracked list: the name is trimmed, refused when empty,
/// and not added again when the list already names it (ignoring ASCII case).
/// `Ok(true)` means that the list changed and has to be saved.
pub fn add_tracked_app(config: &mut Config, exe: &str) -> (r: Result<bool, CommandError>)
    ensures
        trim_seq(exe@).len() == 0 ==> r == Err::<bool, CommandError>(CommandError::EmptyExe)
            && *final(config) == *old(config),
        trim_seq(exe@).len() > 0 && names_app(old(config).tracked_apps@, trim_seq(exe@)) ==> r
            == Ok::<bool, CommandError>(false) && *final(config) == *old(config),
        trim_seq(exe@).len() > 0 && !names_app(old(config).tracked_apps@, trim_seq(exe@)) ==> r
            == Ok::<bool, CommandError>(true) && names(final(config).tracked_apps@) == names(
            old(config).tracked_apps@,
        ).push(trim_seq(exe@)) && same_but_apps(*old(config), *final(config)),
{
    let trimmed = trim(exe);
    if trimmed.unicode_len() == 0 {
        return Err(CommandError::EmptyExe);
    }
    if crate::budget::contains_app(&config.tracked_apps, trimmed) {
        return Ok(false);
    }
    let ghost before = names(config.tracked_apps@);
    config.tracked_apps.push(String::from_str(trimmed));
    assert(names(config.tracked_apps@) =~= before.push(trim_seq(exe@)));
    Ok(true)
}

/// `s` without every entry that equals `x` ignoring ASCII case.
pub open spec fn without_matches(s: Seq<Seq<char>>, x: Seq<char>) -> Seq<Seq<char>>
    decreases s.len(),
{
    if s.len() == 0 {
        s
    } else if ascii_eq_ignore_case(s.last(), x) {
        without_matches(s.drop_last(), x)
    } else {
        without_matches(s.drop_last(), x).push(s.last())
    }
}

/// Removes every tracked app named `exe` (ignoring ASCII case). Returns
/// whether the list changed and has to be saved.
pub fn remove_tracked_app(config: &mut Config, exe: &str) -> (changed: bool)
    ensures
        names(final(config).tracked_apps@) == without_matches(
            names(old(config).tracked_apps@),
            exe@,
        ),
        changed == (final(config).tracked_apps@.len() != old(config).tracked_apps@.len()),
        same_but_apps(*old(config), *final(config)),
{
    let n = config.tracked_apps.len();
    let ghost all = names(config.tracked_apps@);
    let mut kept: Vec<String> = Vec::new();
    let mut i: usize = 0;
    while i < n
        invariant
            n == config.tracked_apps@.len(),
            all == names(config.tracked_apps@),
            i <= n,
            names(kept@) == without_matches(all.take(i as int), exe@),
        decreases n - i,
    {
        assert(all.take(i + 1).drop_last() =~= all.take(i as int));
        assert(all.take(i + 1).last() == config.tracked_apps@[i as int]@);
        if !eq_ignore_ascii_case(config.tracked_apps[i].as_str(), exe) {
            let ghost prev = names(kept@);
            kept.push(config.tracked_apps[i].clone());
            assert(names(kept@) =~= prev.push(config.tracked_apps@[i as int]@));
        }
        i = i + 1;
    }
    assert(all.take(n as int) =~= all);
    config.tracked_apps = kept;
    config.tracked_apps.len() != n
}

/// Sets the usage budget, which has to be 1..=600 minutes.
pub fn set_usage_minutes(config: &mut Config, minutes: u32) -> (r: Result<(), CommandError>)
    ensures
        r is Ok <==> 1 <= minutes <= MAX_USAGE_MINUTES,
        r is Ok ==> *final(config) == (Config { usage_minutes: minutes, ..*old(config) }),
        r is Err ==> r == Err::<(), CommandError>(CommandError::UsageMinutesOutOfRange)
            && *final(config) == *old(config),
{
    if !(1 <= minutes && minutes <= MAX_USAGE_MINUTES) {
        return Err(CommandError::UsageMinutesOutOfRange);
    }
    config.usage_minutes = minutes;
    Ok(())
}

/// Sets the break length, which has to be 1..=60 minutes.
pub fn set_break_minutes(config: &mut Config, minutes: u32) -> (r: Result<(), CommandError>)
    ensures
        r is Ok <==> 1 <= minutes <= MAX_BREAK_MINUTES,
        r is Ok ==> *final(config) == (Config { break_minutes: minutes, ..*old(config) }),
        r is Err ==> r == Err::<(), CommandError>(CommandError::BreakMinutesOutOfRange)
            && *final(config) == *old(config),
{
    if !(1 <= minutes && minutes <= MAX_BREAK_MINUTES) {
        return Err(CommandError::BreakMinutesOutOfRange);
    }
    config.break_minutes = minutes;
    Ok(())
}

/// What to do with the session's autostart entry.
#[derive(Debug, Clone, Copy, PartialEq, Eq, Structural)]
pub enum AutostartAction {
    Enable,
    Disable,
    Keep,
}

/// The change to the autostart entry that makes it match the wish `enabled`,
/// given whether it is `currently` enabled.
pub fn autostart_action(enabled: bool, currently: bool) -> (a: AutostartAction)
    ensures
        a == if enabled && !currently {
            AutostartAction::Enable
        } else if !enabled && currently {
            AutostartAction::Disable
        } else {
            AutostartAction::Keep
        },
{
    if enabled && !currently {
        AutostartAction::Enable
    } else if !enabled && currently {
        AutostartAction::Disable
    } else {
        AutostartAction::Keep
    }
}

/// Snoozes for `seconds` from the Unix time `now_unix`; zero seconds are
/// refused and leave the machine as it was.
pub fn snooze(machine: &mut BudgetMachine, seconds: u64, now_unix: u64) -> (r: Result<
    Transition,
    CommandError,
>)
    requires
        now_unix + seconds <= u64::MAX,
    ensures
        seconds == 0 ==> r == Err::<Transition, CommandError>(CommandError::ZeroSnooze)
            && *final(machine) == *old(machine),
        seconds > 0 ==> r == Ok::<Transition, CommandError>(
            Transition {
                from: old(machine).state,
                to: AppState::Snoozed { until_unix: (now_unix + seconds) as u64 },
            },
        ) && *final(machine) == (BudgetMachine {
            state: AppState::Snoozed { until_unix: (now_unix + seconds) as u64 },
            ..*old(machine)
        }),
{
    if seconds == 0 {
        return Err(CommandError::ZeroSnooze);
    }
    Ok(machine.snooze_for(seconds, now_unix))
}

/// Removing an app that was just added, by the name it was added under,
/// gives back the list as it was.
pub proof fn lemma_remove_undoes_add(apps: Seq<String>, exe: Seq<char>)
    requires
        trim_seq(exe) == exe,
        !names_app(apps, exe),
    ensures
        without_matches(names(apps).push(trim_seq(exe)), exe) == names(apps),
{
    let ns = names(apps);
    lemma_ascii_eq_ignore_case_equivalence(exe, exe, exe);
    assert(ns.push(exe).drop_last() =~= ns);
    assert forall|i: int| 0 <= i < ns.len() implies !ascii_eq_ignore_case(#[trigger] ns[i], exe) by {
        assert(ns[i] == apps[i]@);
    }
    lemma_without_matches_none(ns, exe);
}

/// Removing a name that no entry matches changes nothing.
pub proof fn lemma_without_matches_none(apps: Seq<Seq<char>>, exe: Seq<char>)
    requires
        forall|i: int| 0 <= i < apps.len() ==> !ascii_eq_ignore_case(#[trigger] apps[i], exe),
    ensures
        without_matches(apps, exe) == apps,
    decreases apps.len(),
{
    if apps.len() > 0 {
        let t = apps.drop_last();
        assert forall|i: int| 0 <= i < t.len() implies !ascii_eq_ignore_case(#[trigger] t[i], exe) by {
            assert(t[i] == apps[i]);
        }
        lemma_without_matches_none(t, exe);
        assert(t.push(apps.last()) =~= apps);
    }
}

/// After a removal no entry matches the removed name.
pub proof fn lemma_removed_app_is_gone(apps: Seq<Seq<char>>, exe: Seq<char>)
    ensures
        forall|i: int|
            0 <= i < without_matches(apps, exe).len() ==> !ascii_eq_ignore_case(
                #[trigger] without_matches(apps, exe)[i],
                exe,
            ),
    decreases apps.len(),
{
    if apps.len() > 0 {
        let w = without_matches(apps.drop_last(), exe);
        lemma_removed_app_is_gone(apps.drop_last(), exe);
        if !ascii_eq_ignore_case(apps.last(), exe) {
            let r = w.push(apps.last());
            assert forall|i: int| 0 <= i < r.len() implies !ascii_eq_ignore_case(
                #[trigger] r[i],
                exe,
            ) by {
                if i < w.len() {
                    assert(r[i] == w[i]);
                }
            }
        }
    }
}

/// Adding an app twice is adding it once: once added, the list names the
/// app, so adding it again is `Ok(false)` and changes nothing.
pub proof fn lemma_added_app_is_named(apps: Seq<String>, added: Seq<String>, exe: Seq<char>)
    requires
        names(added) == names(apps).push(trim_seq(exe)),
    ensures
        names_app(added, trim_seq(exe)),
{
    let t = trim_seq(exe);
    lemma_ascii_eq_ignore_case_equivalence(t, t, t);
    assert(names(added).len() == names(apps).len() + 1);
    assert(added.len() == apps.len() + 1);
    assert(names(added)[apps.len() as int] == t);
    assert(added[apps.len() as int]@ == t);
}

} // verus!
