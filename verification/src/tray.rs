//! What the tray icon shows and does: the tooltip text, the menu's actions and
//! where the snooze dialog opens.
use vstd::prelude::*;
use vstd::string::*;

use crate::budget::{saturate_u32, saturating_u32, AppState};
use crate::sensing::MonitorRef;
use crate::text::{decimal, decimal_seq, str_eq};

verus! {

/// Width of the snooze confirmation window, in physical pixels.
pub const SNOOZE_WINDOW_WIDTH: u32 = 360;

/// Height of the snooze confirmation window, in physical pixels.
pub const SNOOZE_WINDOW_HEIGHT: u32 = 170;

/// A duration in seconds as the tooltip shows it: hours and minutes from an
/// hour on, whole minutes from a minute on, seconds below that.
pub open spec fn format_minutes_spec(secs: u32) -> Seq<char> {
    if secs >= 3600 {
        if (secs % 3600) / 60 == 0 {
            decimal_seq((secs / 3600) as nat) + " h"@
        } else {
            decimal_seq((secs / 3600) as nat) + " h "@ + decimal_seq(((secs % 3600) / 60) as nat)
                + " min"@
        }
    } else if secs >= 60 {
        decimal_seq((secs / 60) as nat) + " min"@
    } else {
        decimal_seq(secs as nat) + " s"@
    }
}

/// Renders a duration in seconds for the tooltip.
pub fn format_minutes(secs: u32) -> (r: String)
    ensures
        r@ == format_minutes_spec(secs),
{
    if secs >= 3600 {
        let h = secs / 3600;
        let m = (secs % 3600) / 60;
        let mut s = decimal(h as u64);
        if m == 0 {
            s.append(" h");
        } else {
            s.append(" h ");
            let mins = decimal(m as u64);
            s.append(mins.as_str());
            s.append(" min");
        }
        s
    } else if secs >= 60 {
        let mut s = decimal((secs / 60) as u64);
        s.append(" min");
        s
    } else {
        let mut s = decimal(secs as u64);
        s.append(" s");
        s
    }
}

/// The tooltip for a state, at the Unix time `now_unix` (seconds).
pub open spec fn tooltip_spec(state: AppState, now_unix: u64) -> Seq<char> {
    match state {
        AppState::Idle { remaining_secs } => "pawse — "@ + format_minutes_spec(remaining_secs)
            + " remaining"@,
        AppState::Active { remaining_secs } => "pawse — "@ + format_minutes_spec(remaining_secs)
            + " remaining"@,
        AppState::Break { remaining_secs } => "on break — "@ + format_minutes_spec(remaining_secs),
        AppState::DeferredBreak => "break pending — fullscreen"@,
        AppState::Snoozed { until_unix } => "snoozed for "@ + format_minutes_spec(
            saturate_u32(until_unix.saturating_sub(now_unix)),
        ),
    }
}

/// The tooltip for `state` at the Unix time `now_unix`.
pub fn tooltip_for(state: &AppState, now_unix: u64) -> (r: String)
    ensures
        r@ == tooltip_spec(*state, now_unix),
{
    match state {
        AppState::Idle { remaining_secs } => {
            let mut s = String::from_str("pawse — ");
            let d = format_minutes(*remaining_secs);
            s.append(d.as_str());
            s.append(" remaining");
            s
        },
        AppState::Active { remaining_secs } => {
            let mut s = String::from_str("pawse — ");
            let d = format_minutes(*remaining_secs);
            s.append(d.as_str());
            s.append(" remaining");
            s
        },
        AppState::Break { remaining_secs } => {
            let mut s = String::from_str("on break — ");
            let d = format_minutes(*remaining_secs);
            s.append(d.as_str());
            s
        },
        AppState::DeferredBreak => String::from_str("break pending — fullscreen"),
        AppState::Snoozed { until_unix } => {
            let left = saturating_u32(until_unix.saturating_sub(now_unix));
            let mut s = String::from_str("snoozed for ");
            let d = format_minutes(left);
            s.append(d.as_str());
            s
        },
    }
}

/// What a tray menu entry does.
#[derive(Debug, Clone, Copy, PartialEq, Eq, Structural)]
pub enum MenuAction {
    /// Open the snooze confirmation window.
    OpenSnooze,
    /// Show the settings window.
    ShowSettings,
    /// Quit the app.
    Quit,
}

/// The action of the menu entry with the identifier `id`.
pub open spec fn menu_action_spec(id: Seq<char>) -> Option<MenuAction> {
    if id == "snooze"@ {
        Some(MenuAction::OpenSnooze)
    } else if id == "settings"@ {
        Some(MenuAction::ShowSettings)
    } else if id == "quit"@ {
        Some(MenuAction::Quit)
    } else {
        None
    }
}

/// The action of the menu entry with the identifier `id`, if it is one of
/// the tray menu's entries.
pub fn menu_action(id: &str) -> (r: Option<MenuAction>)
    ensures
        r == menu_action_spec(id@),
{
    if str_eq(id, "snooze") {
        Some(MenuAction::OpenSnooze)
    } else if str_eq(id, "settings") {
        Some(MenuAction::ShowSettings)
    } else if str_eq(id, "quit") {
        Some(MenuAction::Quit)
    } else {
        None
    }
}

/// Whether a click on the tray icon shows the settings window: only a double
/// click of the left button does.
pub fn click_shows_settings(double_click: bool, left_button: bool) -> (r: bool)
    ensures
        r == (double_click && left_button),
{
    double_click && left_button
}

/// The point `(x, y)` lies on monitor `m`.
pub open spec fn contains_point(m: MonitorRef, x: int, y: int) -> bool {
    &&& m.x <= x < m.x + (m.width as i32)
    &&& m.y <= y < m.y + (m.height as i32)
}

/// The first monitor of `ms` that contains `(x, y)`.
pub open spec fn find_monitor(ms: Seq<MonitorRef>, x: int, y: int) -> Option<MonitorRef>
    decreases ms.len(),
{
    if ms.len() == 0 {
        None
    } else if contains_point(ms[0], x, y) {
        Some(ms[0])
    } else {
        find_monitor(ms.drop_first(), x, y)
    }
}

/// `find_monitor` finds the entry at `i` when none before it contains the
/// point (and finds none when `i` is past the end).
proof fn lemma_find_monitor(ms: Seq<MonitorRef>, x: int, y: int, i: int)
    requires
        0 <= i <= ms.len(),
        forall|j: int| 0 <= j < i ==> !contains_point(#[trigger] ms[j], x, y),
        i < ms.len() ==> contains_point(ms[i], x, y),
    ensures
        find_monitor(ms, x, y) == if i < ms.len() {
            Some(ms[i])
        } else {
            None
        },
    decreases i,
{
    if i > 0 {
        let t = ms.drop_first();
        assert forall|j: int| 0 <= j < i - 1 implies !contains_point(#[trigger] t[j], x, y) by {
            assert(t[j] == ms[j + 1]);
        }
        if i < ms.len() {
            assert(t[i - 1] == ms[i]);
        }
        lemma_find_monitor(t, x, y, i - 1);
        assert(!contains_point(ms[0], x, y));
    }
}

/// The monitor that the snooze window opens on: the one under the cursor,
/// else the primary monitor.
pub open spec fn target_monitor(
    cursor: Option<(i32, i32)>,
    monitors: Seq<MonitorRef>,
    primary: Option<MonitorRef>,
) -> Option<MonitorRef> {
    match cursor {
        Some((x, y)) => match find_monitor(monitors, x as int, y as int) {
            Some(m) => Some(m),
            None => primary,
        },
        None => primary,
    }
}

/// How far a window of extent `inner` sits from the edge when centred in
/// `outer` (never negative).
pub open spec fn centre_offset(outer: u32, inner: u32) -> int {
    if (outer as i32) - (inner as i32) > 0 {
        ((outer as i32) - (inner as i32)) / 2
    } else {
        0
    }
}

/// Centring a `w` by `h` window on `m` stays within 32-bit coordinates.
pub open spec fn centring_fits(m: MonitorRef, w: u32, h: u32) -> bool {
    &&& i32::MIN <= (m.width as i32) - (w as i32) <= i32::MAX
    &&& i32::MIN <= (m.height as i32) - (h as i32) <= i32::MAX
    &&& m.x + centre_offset(m.width, w) <= i32::MAX
    &&& m.y + centre_offset(m.height, h) <= i32::MAX
}

/// The top-left corner of a `w` by `h` window centred on the monitor under the
/// cursor (else on the primary monitor), or `(100, 100)` with no monitor.
pub open spec fn centred_position(target: Option<MonitorRef>, w: u32, h: u32) -> (int, int) {
    match target {
        Some(m) => (m.x + centre_offset(m.width, w), m.y + centre_offset(m.height, h)),
        None => (100, 100),
    }
}

/// Whether `(x, y)` lies on `m`.
fn monitor_contains(m: &MonitorRef, x: i32, y: i32) -> (r: bool)
    ensures
        r == contains_point(*m, x as int, y as int),
{
    let x0 = m.x as i64;
    let y0 = m.y as i64;
    let w = (m.width as i32) as i64;
    let h = (m.height as i32) as i64;
    let px = x as i64;
    let py = y as i64;
    px >= x0 && px < x0 + w && py >= y0 && py < y0 + h
}

/// The first monitor of `monitors` that contains `(x, y)`.
fn first_monitor_containing(monitors: &Vec<MonitorRef>, x: i32, y: i32) -> (r: Option<MonitorRef>)
    ensures
        r == find_monitor(monitors@, x as int, y as int),
{
    let n = monitors.len();
    let mut i: usize = 0;
    while i < n
        invariant
            n == monitors@.len(),
            i <= n,
            forall|j: int| 0 <= j < i ==> !contains_point(#[trigger] monitors@[j], x as int, y as int),
        decreases n - i,
    {
        if monitor_contains(&monitors[i], x, y) {
            proof {
                lemma_find_monitor(monitors@, x as int, y as int, i as int);
            }
            return Some(monitors[i]);
        }
        i = i + 1;
    }
    proof {
        lemma_find_monitor(monitors@, x as int, y as int, n as int);
    }
    None
}

/// Whether centring a `w` by `h` window on `m` stays within 32-bit
/// coordinates.
pub fn fits_centred(m: &MonitorRef, w: u32, h: u32) -> (r: bool)
    ensures
        r == centring_fits(*m, w, h),
{
    let dw = (m.width as i32) as i64 - (w as i32) as i64;
    let dh = (m.height as i32) as i64 - (h as i32) as i64;
    if dw < i32::MIN as i64 || dw > i32::MAX as i64 || dh < i32::MIN as i64 || dh > i32::MAX as i64 {
        return false;
    }
    let ow: i64 = if dw > 0 {
        dw / 2
    } else {
        0
    };
    let oh: i64 = if dh > 0 {
        dh / 2
    } else {
        0
    };
    (m.x as i64) + ow <= i32::MAX as i64 && (m.y as i64) + oh <= i32::MAX as i64
}

/// The monitor found for a point lies among the monitors and contains the
/// point in both coordinates, and no earlier monitor contains it; when no
/// monitor contains the point, none is found.
pub proof fn lemma_monitor_under_cursor(ms: Seq<MonitorRef>, x: int, y: int)
    ensures
        find_monitor(ms, x, y) matches Some(m) ==> (m.x <= x < m.x + (m.width as i32) && m.y <= y
            < m.y + (m.height as i32) && exists|i: int|
            0 <= i < ms.len() && #[trigger] ms[i] == m && forall|j: int|
                0 <= j < i ==> !(#[trigger] ms[j].x <= x < ms[j].x + (ms[j].width as i32) && ms[j].y
                    <= y < ms[j].y + (ms[j].height as i32))),
        (exists|i: int|
            0 <= i < ms.len() && #[trigger] ms[i].x <= x < ms[i].x + (ms[i].width as i32) && ms[i].y
                <= y < ms[i].y + (ms[i].height as i32)) ==> find_monitor(ms, x, y) is Some,
    decreases ms.len(),
{
    if ms.len() > 0 {
        let t = ms.drop_first();
        lemma_monitor_under_cursor(t, x, y);
        if !contains_point(ms[0], x, y) {
            if find_monitor(t, x, y) is Some {
                let m = find_monitor(t, x, y)->0;
                let i = choose|i: int|
                    0 <= i < t.len() && #[trigger] t[i] == m && forall|j: int|
                        0 <= j < i ==> !(#[trigger] t[j].x <= x < t[j].x + (t[j].width as i32)
                            && t[j].y <= y < t[j].y + (t[j].height as i32));
                assert(ms[i + 1] == m);
                assert forall|j: int| 0 <= j < i + 1 implies !(#[trigger] ms[j].x <= x < ms[j].x + (
                ms[j].width as i32) && ms[j].y <= y < ms[j].y + (ms[j].height as i32)) by {
                    if j > 0 {
                        assert(ms[j] == t[j - 1]);
                    }
                }
            }
            if exists|i: int|
                0 <= i < ms.len() && #[trigger] ms[i].x <= x < ms[i].x + (ms[i].width as i32)
                    && ms[i].y <= y < ms[i].y + (ms[i].height as i32) {
                let i = choose|i: int|
                    0 <= i < ms.len() && #[trigger] ms[i].x <= x < ms[i].x + (ms[i].width as i32)
                        && ms[i].y <= y < ms[i].y + (ms[i].height as i32);
                assert(i > 0);
                assert(t[i - 1] == ms[i]);
            }
        } else {
            assert(ms[0] == ms[0]);
        }
    }
}

/// The monitor that the snooze window opens on: the one under the cursor
/// (`None` when the cursor position is unknown), else the primary monitor.
pub fn snooze_window_monitor(
    cursor: Option<(i32, i32)>,
    monitors: &Vec<MonitorRef>,
    primary: Option<MonitorRef>,
) -> (r: Option<MonitorRef>)
    ensures
        r == target_monitor(cursor, monitors@, primary),
        match cursor {
            Some((x, y)) => {
                &&& (exists|i: int|
                    0 <= i < monitors@.len() && #[trigger] monitors@[i].x <= x < monitors@[i].x
                        + (monitors@[i].width as i32) && monitors@[i].y <= y < monitors@[i].y + (
                    monitors@[i].height as i32)) ==> (r matches Some(m) && m.x <= x < m.x + (
                m.width as i32) && m.y <= y < m.y + (m.height as i32) && monitors@.contains(m))
                &&& (forall|i: int|
                    0 <= i < monitors@.len() ==> !(#[trigger] monitors@[i].x <= x < monitors@[i].x
                        + (monitors@[i].width as i32) && monitors@[i].y <= y < monitors@[i].y + (
                    monitors@[i].height as i32))) ==> r == primary
            },
            None => r == primary,
        },
{
    proof {
        if let Some((x, y)) = cursor {
            lemma_monitor_under_cursor(monitors@, x as int, y as int);
        }
    }
    let found = match cursor {
        Some((x, y)) => first_monitor_containing(monitors, x, y),
        None => None,
    };
    match found {
        Some(m) => Some(m),
        None => primary,
    }
}

/// `centre_offset` computed in 32 bits.
fn centre_offset_exec(outer: u32, inner: u32) -> (r: i32)
    requires
        i32::MIN <= (outer as i32) - (inner as i32) <= i32::MAX,
    ensures
        r == centre_offset(outer, inner),
{
    let d = (outer as i32) - (inner as i32);
    if d > 0 {
        d / 2
    } else {
        0
    }
}

/// Where the snooze window of size `w` by `h` opens: centred on the monitor
/// under the cursor (`None` when the cursor position is unknown), else on the
/// primary monitor, else at `(100, 100)`.
pub fn center_on_cursor_monitor(
    cursor: Option<(i32, i32)>,
    monitors: &Vec<MonitorRef>,
    primary: Option<MonitorRef>,
    w: u32,
    h: u32,
) -> (r: (i32, i32))
    requires
        target_monitor(cursor, monitors@, primary) matches Some(m) ==> centring_fits(m, w, h),
    ensures
        (r.0 as int, r.1 as int) == centred_position(target_monitor(cursor, monitors@, primary), w, h),
{
    match snooze_window_monitor(cursor, monitors, primary) {
        Some(m) => {
            let dx = centre_offset_exec(m.width, w);
            let dy = centre_offset_exec(m.height, h);
            (m.x + dx, m.y + dy)
        },
        None => (100, 100),
    }
}

} // verus!
