//! The Windows sensing back end's decisions: idle time from input ticks, the
//! executable's file name, monitor bounds, whether a window is fullscreen,
//! which windows count as the user's, and the de-duplicated, sorted process
//! list. The system calls that gather the raw values are made by the caller.
use vstd::prelude::*;
use vstd::string::*;

use super::{
    first_match, lemma_first_match, lemma_first_match_facts, names, no_duplicates, ForegroundSnapshot,
    MonitorRef, RunningProcess,
};
use crate::text::{ascii_eq_ignore_case, eq_ignore_ascii_case, lemma_ascii_eq_ignore_case_equivalence};

verus! {

/// The extended window style bit of tool windows.
pub const WS_EX_TOOLWINDOW: u32 = 0x80;

/// Milliseconds in a second.
pub const MILLIS_PER_SEC: u64 = 1000;

/// Whole seconds since the last input, from the tick count (milliseconds) of
/// the last input, when the system reported it, and the tick count now.
pub fn idle_seconds(last_input_tick: Option<u32>, tick_now: u32) -> (r: u64)
    ensures
        r == match last_input_tick {
            Some(t) => (tick_now.saturating_sub(t) / 1000) as u64,
            None => 0,
        },
{
    match last_input_tick {
        Some(t) => tick_now.saturating_sub(t) as u64 / MILLIS_PER_SEC,
        None => 0,
    }
}

/// Path separators.
pub open spec fn is_path_separator(c: char) -> bool {
    c == '\\' || c == '/'
}

/// The part of `path` after its last separator (all of it when it has none).
pub open spec fn file_name_spec(path: Seq<char>) -> Seq<char>
    decreases path.len(),
{
    if path.len() == 0 {
        path
    } else if is_path_separator(path.last()) {
        Seq::empty()
    } else {
        file_name_spec(path.drop_last()).push(path.last())
    }
}

/// `file_name_spec` is what follows position `start`, when `start - 1` is a
/// separator (or `start` is 0) and no separator follows.
proof fn lemma_file_name(path: Seq<char>, start: int)
    requires
        0 <= start <= path.len(),
        start > 0 ==> is_path_separator(path[start - 1]),
        forall|j: int| start <= j < path.len() ==> !is_path_separator(#[trigger] path[j]),
    ensures
        file_name_spec(path) =~= path.subrange(start, path.len() as int),
    decreases path.len(),
{
    if path.len() > 0 {
        if start == path.len() {
            assert(is_path_separator(path.last()));
        } else {
            let t = path.drop_last();
            assert forall|j: int| start <= j < t.len() implies !is_path_separator(#[trigger] t[j]) by {
                assert(t[j] == path[j]);
            }
            if start > 0 {
                assert(t[start - 1] == path[start - 1]);
            }
            lemma_file_name(t, start);
            assert(path.subrange(start, path.len() as int) =~= t.subrange(start, t.len() as int).push(
                path.last(),
            ));
        }
    }
}

/// The file name is everything after the last backslash or slash of the
/// path, every other character (spaces included) kept; the whole path when
/// it holds neither.
pub proof fn lemma_file_name_after_last_separator(path: Seq<char>, k: int)
    requires
        0 <= k <= path.len(),
        k == 0 || path[k - 1] == '\\' || path[k - 1] == '/',
        forall|j: int| k <= j < path.len() ==> path[j] != '\\' && path[j] != '/',
    ensures
        file_name_spec(path) == path.subrange(k, path.len() as int),
{
    assert forall|j: int| k <= j < path.len() implies !is_path_separator(#[trigger] path[j]) by {}
    lemma_file_name(path, k);
}

/// The file name of an executable's full path.
pub fn exe_file_name(path: &str) -> (r: String)
    ensures
        r@ == file_name_spec(path@),
        forall|k: int|
            0 <= k <= path@.len() && (k == 0 || path@[k - 1] == '\\' || path@[k - 1] == '/')
                && (forall|j: int| k <= j < path@.len() ==> path@[j] != '\\' && path@[j] != '/')
                ==> r@ == path@.subrange(k, path@.len() as int),
{
    proof {
        assert forall|k: int|
            0 <= k <= path@.len() && (k == 0 || path@[k - 1] == '\\' || path@[k - 1] == '/')
                && (forall|j: int| k <= j < path@.len() ==> path@[j] != '\\' && path@[j] != '/')
                implies file_name_spec(path@) == path@.subrange(k, path@.len() as int) by {
            lemma_file_name_after_last_separator(path@, k);
        }
    }
    let n = path.unicode_len();
    let mut start: usize = n;
    while start > 0 && !(path.get_char(start - 1) == '\\' || path.get_char(start - 1) == '/')
        invariant
            n == path@.len(),
            start <= n,
            forall|j: int| start <= j < n ==> !is_path_separator(#[trigger] path@[j]),
        decreases start,
    {
        start = start - 1;
    }
    proof {
        lemma_file_name(path@, start as int);
    }
    String::from_str(path.substring_char(start, n))
}

/// A window's bounds, in physical pixels.
#[derive(Debug, Clone, Copy, PartialEq, Eq, Structural)]
pub struct WindowRect {
    pub left: i32,
    pub top: i32,
    pub right: i32,
    pub bottom: i32,
}

/// The monitor bounds given by the corners of its rectangle.
pub fn monitor_ref(rect: WindowRect) -> (m: MonitorRef)
    requires
        i32::MIN <= rect.right - rect.left <= i32::MAX,
        i32::MIN <= rect.bottom - rect.top <= i32::MAX,
    ensures
        m.x == rect.left,
        m.y == rect.top,
        m.width == ((rect.right - rect.left) as i32) as u32,
        m.height == ((rect.bottom - rect.top) as i32) as u32,
{
    MonitorRef {
        x: rect.left,
        y: rect.top,
        width: (rect.right - rect.left) as u32,
        height: (rect.bottom - rect.top) as u32,
    }
}

/// The window's rectangle reaches the monitor's top-left corner and is at
/// least as large as the monitor.
pub open spec fn covers_spec(rect: Option<WindowRect>, monitor: Option<MonitorRef>) -> bool {
    match (rect, monitor) {
        (Some(r), Some(m)) => {
            &&& r.left <= m.x
            &&& r.top <= m.y
            &&& ((r.right - r.left) as i32) as u32 >= m.width
            &&& ((r.bottom - r.top) as i32) as u32 >= m.height
        },
        _ => false,
    }
}

/// The sizes that `window_covers_monitor` computes fit in 32 bits, as far as
/// it computes them.
pub open spec fn covers_defined(rect: Option<WindowRect>, monitor: Option<MonitorRef>) -> bool {
    match (rect, monitor) {
        (Some(r), Some(m)) => {
            &&& (r.left <= m.x && r.top <= m.y) ==> i32::MIN <= r.right - r.left <= i32::MAX
            &&& (r.left <= m.x && r.top <= m.y && ((r.right - r.left) as i32) as u32 >= m.width)
                ==> i32::MIN <= r.bottom - r.top <= i32::MAX
        },
        _ => true,
    }
}

/// A window covers its monitor exactly when it reaches the monitor's top-left
/// corner and is at least as wide and as tall as the monitor (for a window
/// rectangle whose right and bottom edges are not before its left and top).
pub proof fn lemma_covers_proper_rect(r: WindowRect, m: MonitorRef)
    requires
        r.left <= r.right,
        r.top <= r.bottom,
    ensures
        covers_spec(Some(r), Some(m)) <==> (r.left <= m.x && r.top <= m.y && r.right - r.left
            >= m.width && r.bottom - r.top >= m.height),
{
    let (l, rt, t, bt) = (r.left, r.right, r.top, r.bottom);
    assert((((rt - l) as i32) as u32) as int == rt - l) by (bit_vector)
        requires
            l <= rt,
    ;
    assert((((bt - t) as i32) as u32) as int == bt - t) by (bit_vector)
        requires
            t <= bt,
    ;
}

/// A window never counts as covering a monitor it is shorter or narrower
/// than, nor one whose top-left corner it does not reach.
pub proof fn lemma_covering_window_is_large_enough(r: WindowRect, m: MonitorRef)
    requires
        r.left <= r.right,
        r.top <= r.bottom,
        r.bottom - r.top < m.height || r.right - r.left < m.width || r.left > m.x || r.top > m.y,
    ensures
        !covers_spec(Some(r), Some(m)),
{
    lemma_covers_proper_rect(r, m);
}

/// Whether the sizes that `window_covers_monitor` computes fit in 32 bits.
pub fn covers_computable(rect: Option<WindowRect>, monitor: Option<MonitorRef>) -> (r: bool)
    ensures
        r == covers_defined(rect, monitor),
{
    match (rect, monitor) {
        (Some(r), Some(m)) => {
            if !(r.left <= m.x && r.top <= m.y) {
                return true;
            }
            let dw = r.right as i64 - r.left as i64;
            if dw < i32::MIN as i64 || dw > i32::MAX as i64 {
                return false;
            }
            if !((dw as i32) as u32 >= m.width) {
                return true;
            }
            let dh = r.bottom as i64 - r.top as i64;
            i32::MIN as i64 <= dh && dh <= i32::MAX as i64
        },
        _ => true,
    }
}

/// Whether the window (`None` when its bounds could not be read) covers the
/// monitor (`None` when unknown).
pub fn window_covers_monitor(rect: Option<WindowRect>, monitor: Option<MonitorRef>) -> (r: bool)
    requires
        covers_defined(rect, monitor),
    ensures
        r == covers_spec(rect, monitor),
        rect is None || monitor is None ==> !r,
        match (rect, monitor) {
            (Some(w), Some(m)) => w.left <= w.right && w.top <= w.bottom ==> (r <==> (w.left <= m.x
                && w.top <= m.y && w.right - w.left >= m.width && w.bottom - w.top >= m.height)),
            _ => true,
        },
{
    proof {
        if rect is Some && monitor is Some && rect->0.left <= rect->0.right && rect->0.top
            <= rect->0.bottom {
            lemma_covers_proper_rect(rect->0, monitor->0);
        }
    }
    match monitor {
        None => false,
        Some(m) => match rect {
            None => false,
            Some(w) => w.left <= m.x && w.top <= m.y && (w.right - w.left) as u32 >= m.width && (
            w.bottom - w.top) as u32 >= m.height,
        },
    }
}

/// Whether a window belongs in the list of the user's windows: visible, not
/// owned by another window, not a tool window, not cloaked (`cloaked` is
/// `None` when the attribute could not be read) and titled.
pub fn is_user_window(
    visible: bool,
    has_owner: bool,
    ex_style: u32,
    cloaked: Option<u32>,
    title_len: i32,
) -> (r: bool)
    ensures
        r == (visible && !has_owner && ex_style & WS_EX_TOOLWINDOW == 0 && !(cloaked matches Some(
            c,
        ) && c != 0) && title_len != 0),
{
    if !visible {
        return false;
    }
    if has_owner {
        return false;
    }
    if ex_style & WS_EX_TOOLWINDOW != 0 {
        return false;
    }
    match cloaked {
        Some(c) => {
            if c != 0 {
                return false;
            }
        },
        None => {},
    }
    title_len != 0
}

/// Index of `target` among the monitor handles, in enumeration order.
pub fn monitor_index(monitors: &Vec<usize>, target: usize) -> (r: Option<usize>)
    ensures
        match r {
            Some(i) => i < monitors@.len() && monitors@[i as int] == target && forall|j: int|
                0 <= j < i ==> monitors@[j] != target,
            None => forall|j: int| 0 <= j < monitors@.len() ==> monitors@[j] != target,
        },
{
    let n = monitors.len();
    let mut i: usize = 0;
    while i < n
        invariant
            n == monitors@.len(),
            i <= n,
            forall|j: int| 0 <= j < i ==> monitors@[j] != target,
        decreases n - i,
    {
        if monitors[i] == target {
            return Some(i);
        }
        i = i + 1;
    }
    None
}

/// What is known about the foreground window.
#[derive(Debug, Clone)]
pub struct ForegroundWindow {
    pub exe: Option<String>,
    pub monitor_index: Option<usize>,
    pub monitor: Option<MonitorRef>,
    /// The window's bounds, `None` when they could not be read.
    pub rect: Option<WindowRect>,
}

/// The snapshot from the idle time and the foreground window (`None` when
/// there is none).
pub fn snapshot(idle_for_secs: u64, window: Option<ForegroundWindow>) -> (s: ForegroundSnapshot)
    requires
        window matches Some(w) ==> covers_defined(w.rect, w.monitor),
    ensures
        s.idle_for_secs == idle_for_secs,
        match window {
            Some(w) => {
                &&& s.exe == w.exe
                &&& s.monitor_index == w.monitor_index
                &&& s.monitor == w.monitor
                &&& s.is_fullscreen == covers_spec(w.rect, w.monitor)
            },
            None => s.exe is None && !s.is_fullscreen && s.monitor_index is None
                && s.monitor is None,
        },
{
    match window {
        None => ForegroundSnapshot {
            idle_for_secs,
            exe: None,
            is_fullscreen: false,
            monitor_index: None,
            monitor: None,
        },
        Some(w) => {
            let is_fullscreen = window_covers_monitor(w.rect, w.monitor);
            ForegroundSnapshot {
                exe: w.exe,
                idle_for_secs,
                is_fullscreen,
                monitor_index: w.monitor_index,
                monitor: w.monitor,
            }
        },
    }
}

/// A process as its executable name and window title.
pub open spec fn proc_view(p: RunningProcess) -> (Seq<char>, Seq<char>) {
    (p.exe@, p.title@)
}

/// The views of a list of processes.
pub open spec fn procs_view(v: Seq<RunningProcess>) -> Seq<(Seq<char>, Seq<char>)> {
    v.map_values(|p: RunningProcess| proc_view(p))
}

/// The executable names of a list of process views.
pub open spec fn exes(s: Seq<(Seq<char>, Seq<char>)>) -> Seq<Seq<char>> {
    s.map_values(|p: (Seq<char>, Seq<char>)| p.0)
}

/// The list after one more window's process `e` was seen: this app itself
/// (`self_exe`, unless empty) is skipped; a process already listed (ignoring
/// ASCII case) only lends its title when the listed one has none; any other
/// process is appended.
pub open spec fn dedup_step(
    acc: Seq<(Seq<char>, Seq<char>)>,
    e: (Seq<char>, Seq<char>),
    self_exe: Seq<char>,
) -> Seq<(Seq<char>, Seq<char>)> {
    if self_exe.len() > 0 && ascii_eq_ignore_case(e.0, self_exe) {
        acc
    } else if first_match(exes(acc), e.0) >= 0 {
        let k = first_match(exes(acc), e.0);
        if acc[k].1.len() == 0 && e.1.len() > 0 {
            acc.update(k, (acc[k].0, e.1))
        } else {
            acc
        }
    } else {
        acc.push(e)
    }
}

/// One entry per process, in the order first seen, from the processes of all
/// windows in enumeration order.
pub open spec fn dedup_spec(entries: Seq<(Seq<char>, Seq<char>)>, self_exe: Seq<char>) -> Seq<
    (Seq<char>, Seq<char>),
>
    decreases entries.len(),
{
    if entries.len() == 0 {
        entries
    } else {
        dedup_step(dedup_spec(entries.drop_last(), self_exe), entries.last(), self_exe)
    }
}

/// A copy of a process entry.
fn copy_process(p: &RunningProcess) -> (r: RunningProcess)
    ensures
        proc_view(r) == proc_view(*p),
{
    RunningProcess { exe: p.exe.clone(), title: p.title.clone() }
}

/// Index of the first listed process whose executable is `exe` (ignoring
/// ASCII case).
fn find_process(v: &Vec<RunningProcess>, exe: &str) -> (r: Option<usize>)
    ensures
        match r {
            Some(i) => i < v@.len() && first_match(exes(procs_view(v@)), exe@) == i as int,
            None => first_match(exes(procs_view(v@)), exe@) == -1,
        },
{
    let n = v.len();
    let ghost xs = exes(procs_view(v@));
    let mut i: usize = 0;
    while i < n
        invariant
            n == v@.len(),
            xs == exes(procs_view(v@)),
            i <= n,
            forall|j: int| 0 <= j < i ==> !ascii_eq_ignore_case(#[trigger] xs[j], exe@),
        decreases n - i,
    {
        assert(xs[i as int] == v@[i as int].exe@);
        if eq_ignore_ascii_case(v[i].exe.as_str(), exe) {
            proof {
                lemma_first_match(xs, exe@, i as int);
            }
            return Some(i);
        }
        i = i + 1;
    }
    proof {
        lemma_first_match(xs, exe@, n as int);
    }
    None
}

/// One entry per process: this app (`self_exe`, unless empty) left out,
/// later windows of a listed process only filling in a missing title.
pub fn dedup_processes(entries: &Vec<RunningProcess>, self_exe: &str) -> (r: Vec<RunningProcess>)
    ensures
        procs_view(r@) == dedup_spec(procs_view(entries@), self_exe@),
{
    let n = entries.len();
    let ghost all = procs_view(entries@);
    let skip_self = self_exe.unicode_len() > 0;
    let mut out: Vec<RunningProcess> = Vec::new();
    let mut i: usize = 0;
    while i < n
        invariant
            n == entries@.len(),
            all == procs_view(entries@),
            skip_self == (self_exe@.len() > 0),
            i <= n,
            procs_view(out@) == dedup_spec(all.take(i as int), self_exe@),
        decreases n - i,
    {
        let entry = &entries[i];
        let ghost acc = procs_view(out@);
        let ghost e = all[i as int];
        assert(all.take(i + 1).drop_last() =~= all.take(i as int));
        assert(all.take(i + 1).last() == e);
        assert(e == proc_view(*entry));
        if skip_self && eq_ignore_ascii_case(entry.exe.as_str(), self_exe) {
        } else {
            match find_process(&out, entry.exe.as_str()) {
                Some(k) => {
                    assert(exes(acc)[k as int] == acc[k as int].0);
                    if out[k].title.unicode_len() == 0 && entry.title.unicode_len() > 0 {
                        let updated = RunningProcess {
                            exe: out[k].exe.clone(),
                            title: entry.title.clone(),
                        };
                        out.set(k, updated);
                        assert(procs_view(out@) =~= acc.update(k as int, (acc[k as int].0, e.1)));
                    }
                },
                None => {
                    out.push(copy_process(entry));
                    assert(procs_view(out@) =~= acc.push(e));
                },
            }
        }
        i = i + 1;
    }
    assert(all.take(n as int) =~= all);
    out
}

/// Texts in code point order: the order of `str` comparison, since UTF-8
/// keeps the order of code points.
pub open spec fn text_le(a: Seq<char>, b: Seq<char>) -> bool
    decreases a.len(),
{
    if a.len() == 0 {
        true
    } else if b.len() == 0 {
        false
    } else if (a[0] as u32) != (b[0] as u32) {
        (a[0] as u32) < (b[0] as u32)
    } else {
        text_le(a.drop_first(), b.drop_first())
    }
}

/// `text_le` of two texts equals that of what follows their common prefix of
/// length `i`.
proof fn lemma_text_le_skip(a: Seq<char>, b: Seq<char>, i: int)
    requires
        0 <= i <= a.len(),
        i <= b.len(),
        forall|j: int| 0 <= j < i ==> #[trigger] a[j] == b[j],
    ensures
        text_le(a, b) == text_le(a.skip(i), b.skip(i)),
    decreases i,
{
    if i > 0 {
        assert(a[0] == b[0]);
        let a1 = a.drop_first();
        let b1 = b.drop_first();
        assert forall|j: int| 0 <= j < i - 1 implies #[trigger] a1[j] == b1[j] by {
            assert(a1[j] == a[j + 1]);
            assert(b1[j] == b[j + 1]);
        }
        lemma_text_le_skip(a1, b1, i - 1);
        assert(a1.skip(i - 1) =~= a.skip(i));
        assert(b1.skip(i - 1) =~= b.skip(i));
    } else {
        assert(a.skip(0) =~= a);
        assert(b.skip(0) =~= b);
    }
}

/// Executable `text_le`.
pub fn text_le_exec(a: &str, b: &str) -> (r: bool)
    ensures
        r == text_le(a@, b@),
{
    let n = a.unicode_len();
    let m = b.unicode_len();
    let mut i: usize = 0;
    while i < n && i < m && a.get_char(i) == b.get_char(i)
        invariant
            n == a@.len(),
            m == b@.len(),
            i <= n,
            i <= m,
            forall|j: int| 0 <= j < i ==> #[trigger] a@[j] == b@[j],
        decreases n - i,
    {
        i = i + 1;
    }
    proof {
        lemma_text_le_skip(a@, b@, i as int);
        assert(a@.skip(i as int).len() == n - i);
        if i < n && i < m {
            assert(a@.skip(i as int)[0] == a@[i as int]);
            assert(b@.skip(i as int)[0] == b@[i as int]);
        }
    }
    if i == n {
        true
    } else if i == m {
        false
    } else {
        (a.get_char(i) as u32) < (b.get_char(i) as u32)
    }
}

/// A process view with its sort key.
pub type Keyed = (Seq<char>, Seq<char>, Seq<char>);

/// Inserts `e` after every entry of `s`, from the end, whose key is not
/// greater than `e`'s: one step of a stable insertion sort.
pub open spec fn insert_by_key(s: Seq<Keyed>, e: Keyed) -> Seq<Keyed>
    decreases s.len(),
{
    if s.len() == 0 {
        seq![e]
    } else if text_le(s.last().2, e.2) {
        s.push(e)
    } else {
        insert_by_key(s.drop_last(), e).push(s.last())
    }
}

/// `s` sorted by key, entries of equal keys in the order they came in.
pub open spec fn sort_by_key(s: Seq<Keyed>) -> Seq<Keyed>
    decreases s.len(),
{
    if s.len() == 0 {
        s
    } else {
        insert_by_key(sort_by_key(s.drop_last()), s.last())
    }
}

/// `insert_by_key` inserts at `j` when every entry from `j` on has a greater
/// key than `e` and the one before `j` does not.
proof fn lemma_insert_by_key(s: Seq<Keyed>, e: Keyed, j: int)
    requires
        0 <= j <= s.len(),
        forall|t: int| j <= t < s.len() ==> !text_le(#[trigger] s[t].2, e.2),
        j > 0 ==> text_le(s[j - 1].2, e.2),
    ensures
        insert_by_key(s, e) =~= s.insert(j, e),
    decreases s.len(),
{
    if s.len() == 0 {
    } else if text_le(s.last().2, e.2) {
        assert(j == s.len());
    } else {
        let t = s.drop_last();
        assert forall|u: int| j <= u < t.len() implies !text_le(#[trigger] t[u].2, e.2) by {
            assert(t[u] == s[u]);
        }
        if j > 0 {
            assert(t[j - 1] == s[j - 1]);
        }
        lemma_insert_by_key(t, e, j);
        assert(t.insert(j, e).push(s.last()) =~= s.insert(j, e));
    }
}

/// Pairs each process view with the key at the same position.
pub open spec fn keyed(s: Seq<(Seq<char>, Seq<char>)>, keys: Seq<Seq<char>>) -> Seq<Keyed> {
    Seq::new(s.len(), |i: int| (s[i].0, s[i].1, keys[i]))
}

/// The process views without their keys.
pub open spec fn unkeyed(s: Seq<Keyed>) -> Seq<(Seq<char>, Seq<char>)> {
    s.map_values(|e: Keyed| (e.0, e.1))
}

/// Sorts processes by the keys given for them (`keys[i]` is the key of
/// `procs[i]`), stably.
pub fn sort_by_exe_key(procs: &Vec<RunningProcess>, keys: &Vec<String>) -> (r: Vec<RunningProcess>)
    requires
        procs@.len() == keys@.len(),
    ensures
        procs_view(r@) == unkeyed(sort_by_key(keyed(procs_view(procs@), names(keys@)))),
{
    let n = procs.len();
    let ghost all = keyed(procs_view(procs@), names(keys@));
    let mut out: Vec<RunningProcess> = Vec::new();
    let mut out_keys: Vec<String> = Vec::new();
    let mut i: usize = 0;
    while i < n
        invariant
            n == procs@.len(),
            n == keys@.len(),
            all == keyed(procs_view(procs@), names(keys@)),
            i <= n,
            out@.len() == out_keys@.len(),
            keyed(procs_view(out@), names(out_keys@)) == sort_by_key(all.take(i as int)),
        decreases n - i,
    {
        let ghost sorted = keyed(procs_view(out@), names(out_keys@));
        let ghost e = all[i as int];
        assert(all.take(i + 1).drop_last() =~= all.take(i as int));
        assert(all.take(i + 1).last() == e);
        let key = keys[i].as_str();
        let mut j: usize = out.len();
        while j > 0 && !text_le_exec(out_keys[j - 1].as_str(), key)
            invariant
                j <= out@.len(),
                out@.len() == out_keys@.len(),
                sorted == keyed(procs_view(out@), names(out_keys@)),
                key@ == e.2,
                forall|t: int| j <= t < sorted.len() ==> !text_le(#[trigger] sorted[t].2, e.2),
            decreases j,
        {
            assert(sorted[j - 1].2 == out_keys@[j - 1]@);
            j = j - 1;
        }
        proof {
            if j > 0 {
                assert(sorted[j - 1].2 == out_keys@[j - 1]@);
            }
            lemma_insert_by_key(sorted, e, j as int);
        }
        let p = copy_process(&procs[i]);
        let k = keys[i].clone();
        out.insert(j, p);
        out_keys.insert(j, k);
        assert(keyed(procs_view(out@), names(out_keys@)) =~= sorted.insert(j as int, e));
        i = i + 1;
    }
    assert(all.take(n as int) =~= all);
    assert(unkeyed(all.take(n as int)) =~= procs_view(procs@));
    let ghost final_sorted = keyed(procs_view(out@), names(out_keys@));
    assert(unkeyed(final_sorted) =~= procs_view(out@));
    out
}

/// What `str::to_lowercase` returns for a text: its Unicode lower-case
/// mapping, a function of the text alone.
pub uninterp spec fn unicode_lowercase(s: Seq<char>) -> Seq<char>;

/// `str::to_lowercase`: the full Unicode lower-case mapping of `s`.
#[verifier::external_body]
fn to_lowercase(s: &str) -> (r: String)
    ensures
        r@ == unicode_lowercase(s@),
{
    s.to_lowercase()
}

/// The process views keyed by their lower-cased executable names.
pub open spec fn lowercase_keyed(s: Seq<(Seq<char>, Seq<char>)>) -> Seq<Keyed> {
    keyed(s, exes(s).map_values(|x: Seq<char>| unicode_lowercase(x)))
}

/// The processes of the user's windows (`entries`, one per window, in
/// enumeration order) as the picker lists them: one entry per executable
/// without this app (`self_exe`), sorted by lower-cased executable name.
pub fn list_running_processes(entries: &Vec<RunningProcess>, self_exe: &str) -> (r: Vec<
    RunningProcess,
>)
    ensures
        procs_view(r@) == unkeyed(
            sort_by_key(lowercase_keyed(dedup_spec(procs_view(entries@), self_exe@))),
        ),
{
    let deduped = dedup_processes(entries, self_exe);
    let n = deduped.len();
    let mut keys: Vec<String> = Vec::new();
    let mut i: usize = 0;
    while i < n
        invariant
            n == deduped@.len(),
            i <= n,
            keys@.len() == i,
            forall|j: int|
                0 <= j < i ==> #[trigger] keys@[j]@ == unicode_lowercase(deduped@[j].exe@),
        decreases n - i,
    {
        keys.push(to_lowercase(deduped[i].exe.as_str()));
        i = i + 1;
    }
    let ghost d = procs_view(deduped@);
    assert(keyed(d, names(keys@)) =~= lowercase_keyed(d));
    sort_by_exe_key(&deduped, &keys)
}

/// Keys in non-decreasing code point order.
pub open spec fn keys_sorted(s: Seq<Keyed>) -> bool {
    forall|i: int, j: int| 0 <= i < j < s.len() ==> text_le(#[trigger] s[i].2, #[trigger] s[j].2)
}

/// No two entries name the same executable, ignoring ASCII case.
pub open spec fn exes_distinct(s: Seq<Keyed>) -> bool {
    forall|i: int, j: int|
        0 <= i < j < s.len() ==> !ascii_eq_ignore_case(#[trigger] s[i].0, #[trigger] s[j].0)
}

/// `text_le` is reflexive.
proof fn lemma_text_le_reflexive(a: Seq<char>)
    ensures
        text_le(a, a),
    decreases a.len(),
{
    if a.len() > 0 {
        lemma_text_le_reflexive(a.drop_first());
    }
}

/// `text_le` is total.
proof fn lemma_text_le_total(a: Seq<char>, b: Seq<char>)
    ensures
        text_le(a, b) || text_le(b, a),
    decreases a.len(),
{
    if a.len() > 0 && b.len() > 0 && (a[0] as u32) == (b[0] as u32) {
        lemma_text_le_total(a.drop_first(), b.drop_first());
    }
}

/// `text_le` is transitive.
proof fn lemma_text_le_transitive(a: Seq<char>, b: Seq<char>, c: Seq<char>)
    requires
        text_le(a, b),
        text_le(b, c),
    ensures
        text_le(a, c),
    decreases a.len(),
{
    if a.len() > 0 && (a[0] as u32) == (b[0] as u32) && (b[0] as u32) == (c[0] as u32) {
        lemma_text_le_transitive(a.drop_first(), b.drop_first(), c.drop_first());
    }
}

/// Every entry of `insert_by_key(s, e)` is `e` or an entry of `s`.
proof fn lemma_insert_members(s: Seq<Keyed>, e: Keyed)
    ensures
        insert_by_key(s, e).len() == s.len() + 1,
        forall|k: int|
            0 <= k < insert_by_key(s, e).len() ==> #[trigger] insert_by_key(s, e)[k] == e
                || s.contains(insert_by_key(s, e)[k]),
    decreases s.len(),
{
    if s.len() > 0 && !text_le(s.last().2, e.2) {
        let t = s.drop_last();
        let r = insert_by_key(t, e);
        lemma_insert_members(t, e);
        assert forall|k: int| 0 <= k < r.push(s.last()).len() implies #[trigger] r.push(s.last())[k]
            == e || s.contains(r.push(s.last())[k]) by {
            if k == r.len() {
                assert(s[s.len() - 1] == s.last());
            } else if r[k] != e {
                let w = choose|w: int| 0 <= w < t.len() && t[w] == r[k];
                assert(s[w] == t[w]);
            }
        }
    } else if s.len() > 0 {
        assert forall|k: int| 0 <= k < s.push(e).len() implies #[trigger] s.push(e)[k] == e
            || s.contains(s.push(e)[k]) by {
            if k < s.len() {
                assert(s.push(e)[k] == s[k]);
            }
        }
    }
}

/// Every entry of `sort_by_key(s)` is an entry of `s`.
proof fn lemma_sort_members(s: Seq<Keyed>)
    ensures
        sort_by_key(s).len() == s.len(),
        forall|k: int| 0 <= k < sort_by_key(s).len() ==> s.contains(#[trigger] sort_by_key(s)[k]),
    decreases s.len(),
{
    if s.len() > 0 {
        let t = s.drop_last();
        let st = sort_by_key(t);
        lemma_sort_members(t);
        lemma_insert_members(st, s.last());
        let r = sort_by_key(s);
        assert forall|k: int| 0 <= k < r.len() implies s.contains(#[trigger] r[k]) by {
            if r[k] == s.last() {
                assert(s[s.len() - 1] == s.last());
            } else {
                let w = choose|w: int| 0 <= w < st.len() && st[w] == r[k];
                let v = choose|v: int| 0 <= v < t.len() && t[v] == st[w];
                assert(s[v] == t[v]);
            }
        }
    }
}

/// Inserting keeps the keys sorted.
proof fn lemma_insert_sorted(s: Seq<Keyed>, e: Keyed)
    requires
        keys_sorted(s),
    ensures
        keys_sorted(insert_by_key(s, e)),
    decreases s.len(),
{
    if s.len() == 0 {
    } else if text_le(s.last().2, e.2) {
        let r = s.push(e);
        assert forall|i: int, j: int| 0 <= i < j < r.len() implies text_le(
            #[trigger] r[i].2,
            #[trigger] r[j].2,
        ) by {
            if j == s.len() {
                if i < s.len() - 1 {
                    lemma_text_le_transitive(s[i].2, s.last().2, e.2);
                }
            } else {
                assert(r[i] == s[i] && r[j] == s[j]);
            }
        }
    } else {
        let t = s.drop_last();
        let rt = insert_by_key(t, e);
        lemma_insert_sorted(t, e);
        lemma_insert_members(t, e);
        lemma_text_le_total(s.last().2, e.2);
        let r = rt.push(s.last());
        assert forall|i: int, j: int| 0 <= i < j < r.len() implies text_le(
            #[trigger] r[i].2,
            #[trigger] r[j].2,
        ) by {
            if j == rt.len() {
                assert(r[i] == rt[i]);
                if rt[i] != e {
                    let w = choose|w: int| 0 <= w < t.len() && t[w] == rt[i];
                    assert(s[w] == t[w]);
                    assert(text_le(s[w].2, s[s.len() - 1].2));
                }
            } else {
                assert(r[i] == rt[i] && r[j] == rt[j]);
            }
        }
    }
}

/// Sorting sorts the keys.
proof fn lemma_sort_sorted(s: Seq<Keyed>)
    ensures
        keys_sorted(sort_by_key(s)),
    decreases s.len(),
{
    if s.len() > 0 {
        lemma_sort_sorted(s.drop_last());
        lemma_insert_sorted(sort_by_key(s.drop_last()), s.last());
    }
}

/// Inserting an executable that no entry names keeps the names distinct.
proof fn lemma_insert_distinct(s: Seq<Keyed>, e: Keyed)
    requires
        exes_distinct(s),
        forall|i: int| 0 <= i < s.len() ==> !ascii_eq_ignore_case(#[trigger] s[i].0, e.0),
    ensures
        exes_distinct(insert_by_key(s, e)),
    decreases s.len(),
{
    if s.len() == 0 {
    } else if text_le(s.last().2, e.2) {
        let r = s.push(e);
        assert forall|i: int, j: int| 0 <= i < j < r.len() implies !ascii_eq_ignore_case(
            #[trigger] r[i].0,
            #[trigger] r[j].0,
        ) by {
            assert(r[i] == s[i]);
            if j < s.len() {
                assert(r[j] == s[j]);
            }
        }
    } else {
        let t = s.drop_last();
        let rt = insert_by_key(t, e);
        let last = s.last();
        assert forall|i: int| 0 <= i < t.len() implies !ascii_eq_ignore_case(#[trigger] t[i].0, e.0) by {
            assert(t[i] == s[i]);
        }
        lemma_insert_distinct(t, e);
        lemma_insert_members(t, e);
        let r = rt.push(last);
        assert forall|i: int, j: int| 0 <= i < j < r.len() implies !ascii_eq_ignore_case(
            #[trigger] r[i].0,
            #[trigger] r[j].0,
        ) by {
            if j == rt.len() {
                assert(r[i] == rt[i]);
                assert(r[j] == last);
                if rt[i] == e {
                    assert(!ascii_eq_ignore_case(s[s.len() - 1].0, e.0));
                    lemma_ascii_eq_ignore_case_equivalence(e.0, last.0, e.0);
                } else {
                    let w = choose|w: int| 0 <= w < t.len() && t[w] == rt[i];
                    assert(s[w] == t[w]);
                    assert(!ascii_eq_ignore_case(s[w].0, s[s.len() - 1].0));
                }
            } else {
                assert(r[i] == rt[i] && r[j] == rt[j]);
            }
        }
    }
}

/// Sorting keeps the names distinct.
proof fn lemma_sort_distinct(s: Seq<Keyed>)
    requires
        exes_distinct(s),
    ensures
        exes_distinct(sort_by_key(s)),
    decreases s.len(),
{
    if s.len() > 0 {
        let t = s.drop_last();
        let st = sort_by_key(t);
        assert forall|i: int, j: int| 0 <= i < j < t.len() implies !ascii_eq_ignore_case(
            #[trigger] t[i].0,
            #[trigger] t[j].0,
        ) by {
            assert(t[i] == s[i] && t[j] == s[j]);
        }
        lemma_sort_distinct(t);
        lemma_sort_members(t);
        assert forall|i: int| 0 <= i < st.len() implies !ascii_eq_ignore_case(
            #[trigger] st[i].0,
            s.last().0,
        ) by {
            let w = choose|w: int| 0 <= w < t.len() && t[w] == st[i];
            assert(s[w] == t[w]);
            assert(!ascii_eq_ignore_case(s[w].0, s[s.len() - 1].0));
        }
        lemma_insert_distinct(st, s.last());
    }
}

/// Inserting adds exactly the inserted entry.
proof fn lemma_insert_multiset(s: Seq<Keyed>, e: Keyed)
    ensures
        insert_by_key(s, e).to_multiset() =~= s.to_multiset().insert(e),
    decreases s.len(),
{
    broadcast use vstd::seq_lib::to_multiset_build;
    broadcast use vstd::multiset::group_multiset_axioms;

    if s.len() == 0 {
        assert(seq![e] =~= s.push(e));
    } else if !text_le(s.last().2, e.2) {
        let t = s.drop_last();
        lemma_insert_multiset(t, e);
        assert(t.push(s.last()) =~= s);
    }
}

/// Sorting keeps exactly the entries.
proof fn lemma_sort_multiset(s: Seq<Keyed>)
    ensures
        sort_by_key(s).to_multiset() =~= s.to_multiset(),
    decreases s.len(),
{
    broadcast use vstd::seq_lib::to_multiset_build;
    broadcast use vstd::multiset::group_multiset_axioms;

    if s.len() == 0 {
    } else {
        let t = s.drop_last();
        lemma_sort_multiset(t);
        lemma_insert_multiset(sort_by_key(t), s.last());
        assert(t.push(s.last()) =~= s);
    }
}

/// The de-duplicated list names each executable once, never this app.
pub proof fn lemma_dedup_unique(entries: Seq<(Seq<char>, Seq<char>)>, self_exe: Seq<char>)
    ensures
        no_duplicates(exes(dedup_spec(entries, self_exe))),
        self_exe.len() > 0 ==> forall|i: int|
            0 <= i < dedup_spec(entries, self_exe).len() ==> !ascii_eq_ignore_case(
                #[trigger] dedup_spec(entries, self_exe)[i].0,
                self_exe,
            ),
    decreases entries.len(),
{
    if entries.len() > 0 {
        let acc = dedup_spec(entries.drop_last(), self_exe);
        let e = entries.last();
        lemma_dedup_unique(entries.drop_last(), self_exe);
        let xs = exes(acc);
        lemma_first_match_facts(xs, e.0);
        if self_exe.len() > 0 && ascii_eq_ignore_case(e.0, self_exe) {
        } else if first_match(xs, e.0) >= 0 {
            let k = first_match(xs, e.0);
            if acc[k].1.len() == 0 && e.1.len() > 0 {
                let u = acc.update(k, (acc[k].0, e.1));
                assert(exes(u) =~= xs);
                assert forall|i: int| 0 <= i < u.len() implies u[i].0 == acc[i].0 by {}
            }
        } else {
            let u = acc.push(e);
            assert(exes(u) =~= xs.push(e.0));
            let ys = exes(u);
            assert forall|i: int, j: int| 0 <= i < j < ys.len() implies !ascii_eq_ignore_case(
                #[trigger] ys[i],
                #[trigger] ys[j],
            ) by {
                assert(ys[i] == xs[i]);
                if j < xs.len() {
                    assert(ys[j] == xs[j]);
                }
            }
            assert forall|i: int| 0 <= i < u.len() implies u[i].0 == ys[i] by {}
        }
    }
}

/// The process picker's list is sorted by lower-cased executable name, names
/// each executable once (ignoring ASCII case) and never this app, and holds
/// exactly the de-duplicated processes.
pub proof fn lemma_listed_processes_sorted_unique(
    entries: Seq<(Seq<char>, Seq<char>)>,
    self_exe: Seq<char>,
)
    ensures
        keys_sorted(sort_by_key(lowercase_keyed(dedup_spec(entries, self_exe)))),
        exes_distinct(sort_by_key(lowercase_keyed(dedup_spec(entries, self_exe)))),
        sort_by_key(lowercase_keyed(dedup_spec(entries, self_exe))).to_multiset()
            == lowercase_keyed(dedup_spec(entries, self_exe)).to_multiset(),
        self_exe.len() > 0 ==> forall|i: int|
            0 <= i < sort_by_key(lowercase_keyed(dedup_spec(entries, self_exe))).len()
                ==> !ascii_eq_ignore_case(
                #[trigger] sort_by_key(lowercase_keyed(dedup_spec(entries, self_exe)))[i].0,
                self_exe,
            ),
{
    let d = dedup_spec(entries, self_exe);
    let k = lowercase_keyed(d);
    lemma_dedup_unique(entries, self_exe);
    assert forall|i: int, j: int| 0 <= i < j < k.len() implies !ascii_eq_ignore_case(
        #[trigger] k[i].0,
        #[trigger] k[j].0,
    ) by {
        assert(k[i].0 == exes(d)[i]);
        assert(k[j].0 == exes(d)[j]);
    }
    lemma_sort_sorted(k);
    lemma_sort_distinct(k);
    lemma_sort_multiset(k);
    lemma_sort_members(k);
    let r = sort_by_key(k);
    if self_exe.len() > 0 {
        assert forall|i: int| 0 <= i < r.len() implies !ascii_eq_ignore_case(
            #[trigger] r[i].0,
            self_exe,
        ) by {
            let w = choose|w: int| 0 <= w < k.len() && k[w] == r[i];
            assert(k[w].0 == d[w].0);
        }
    }
}

} // verus!
