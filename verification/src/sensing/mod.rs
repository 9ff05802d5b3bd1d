//! What is known about the user's activity: the foreground snapshot that each
//! tick reads, and the list of recently focused apps.
use vstd::prelude::*;

use crate::text::{ascii_eq_ignore_case, eq_ignore_ascii_case, lemma_ascii_eq_ignore_case_equivalence};

pub mod mac;
pub mod win;

verus! {

/// At most this many recently focused apps are remembered.
pub const RECENT_CAP: usize = 5;

/// Position and size of a monitor, in physical pixels.
#[derive(Debug, Clone, Copy, PartialEq, Eq, Structural)]
pub struct MonitorRef {
    pub x: i32,
    pub y: i32,
    pub width: u32,
    pub height: u32,
}

/// A process that owns a user-facing window.
#[derive(Debug, Clone)]
pub struct RunningProcess {
    /// File name of the executable.
    pub exe: String,
    /// Title of one of its windows (possibly empty).
    pub title: String,
}

/// What the foreground looks like at one moment.
#[derive(Debug, Clone)]
pub struct ForegroundSnapshot {
    /// File name of the foreground window's executable, when known.
    pub exe: Option<String>,
    /// Seconds since the last keyboard or mouse input.
    pub idle_for_secs: u64,
    /// Whether the foreground window covers its whole monitor.
    pub is_fullscreen: bool,
    /// Index of the foreground window's monitor among all monitors.
    pub monitor_index: Option<usize>,
    /// Bounds of the foreground window's monitor.
    pub monitor: Option<MonitorRef>,
}

/// The snapshot that knows nothing: no foreground app, no idle time.
pub open spec fn is_empty_snapshot(s: ForegroundSnapshot) -> bool {
    &&& s.exe is None
    &&& s.idle_for_secs == 0
    &&& !s.is_fullscreen
    &&& s.monitor_index is None
    &&& s.monitor is None
}

impl ForegroundSnapshot {
    /// A snapshot with no foreground app and no idle time.
    pub fn empty() -> (s: Self)
        ensures
            is_empty_snapshot(s),
    {
        ForegroundSnapshot {
            exe: None,
            idle_for_secs: 0,
            is_fullscreen: false,
            monitor_index: None,
            monitor: None,
        }
    }
}

/// The texts of a list of strings.
pub open spec fn names(v: Seq<String>) -> Seq<Seq<char>> {
    v.map_values(|s: String| s@)
}

/// Index of the first entry of `s` that equals `x` ignoring ASCII case, or -1.
pub open spec fn first_match(s: Seq<Seq<char>>, x: Seq<char>) -> int
    decreases s.len(),
{
    if s.len() == 0 {
        -1
    } else if ascii_eq_ignore_case(s[0], x) {
        0
    } else if first_match(s.drop_first(), x) < 0 {
        -1
    } else {
        first_match(s.drop_first(), x) + 1
    }
}

/// `first_match` is the first index whose entry matches.
pub proof fn lemma_first_match(s: Seq<Seq<char>>, x: Seq<char>, i: int)
    requires
        0 <= i <= s.len(),
        forall|j: int| 0 <= j < i ==> !ascii_eq_ignore_case(#[trigger] s[j], x),
        i < s.len() ==> ascii_eq_ignore_case(s[i], x),
    ensures
        first_match(s, x) == if i < s.len() {
            i
        } else {
            -1
        },
    decreases i,
{
    if i > 0 {
        let t = s.drop_first();
        assert forall|j: int| 0 <= j < i - 1 implies !ascii_eq_ignore_case(#[trigger] t[j], x) by {
            assert(t[j] == s[j + 1]);
        }
        if i < s.len() {
            assert(t[i - 1] == s[i]);
        }
        lemma_first_match(t, x, i - 1);
        assert(!ascii_eq_ignore_case(s[0], x));
    }
}

/// `first_match` is -1 or an index whose entry matches, with no earlier match.
pub proof fn lemma_first_match_facts(s: Seq<Seq<char>>, x: Seq<char>)
    ensures
        -1 <= first_match(s, x) < s.len(),
        first_match(s, x) >= 0 ==> ascii_eq_ignore_case(s[first_match(s, x)], x),
        forall|j: int|
            0 <= j < s.len() && (first_match(s, x) < 0 || j < first_match(s, x))
                ==> !ascii_eq_ignore_case(#[trigger] s[j], x),
    decreases s.len(),
{
    if s.len() > 0 && !ascii_eq_ignore_case(s[0], x) {
        let t = s.drop_first();
        lemma_first_match_facts(t, x);
        assert forall|j: int|
            0 <= j < s.len() && (first_match(s, x) < 0 || j < first_match(s, x)) implies !ascii_eq_ignore_case(
            #[trigger] s[j],
            x,
        ) by {
            if j > 0 {
                assert(s[j] == t[j - 1]);
            }
        }
    }
}

/// `s` with its first entry that matches `x` (ignoring ASCII case) removed.
pub open spec fn without_first_match(s: Seq<Seq<char>>, x: Seq<char>) -> Seq<Seq<char>> {
    if first_match(s, x) < 0 {
        s
    } else {
        s.remove(first_match(s, x))
    }
}

/// The recent list after `exe` came to the foreground: `exe` first, then the
/// others in their order with the earlier entry for `exe` dropped, cut to
/// `RECENT_CAP` entries.
pub open spec fn recorded(recent: Seq<Seq<char>>, exe: Seq<char>) -> Seq<Seq<char>> {
    let r = seq![exe] + without_first_match(recent, exe);
    if r.len() > RECENT_CAP {
        r.take(RECENT_CAP as int)
    } else {
        r
    }
}

/// The recent list after a snapshot was recorded: unchanged when the snapshot
/// has no app or shows this app itself (`self_exe`).
pub open spec fn recent_after(
    recent: Seq<Seq<char>>,
    exe: Option<Seq<char>>,
    self_exe: Seq<char>,
) -> Seq<Seq<char>> {
    match exe {
        Some(e) => if ascii_eq_ignore_case(e, self_exe) {
            recent
        } else {
            recorded(recent, e)
        },
        None => recent,
    }
}

/// The view of an optional string.
pub open spec fn opt_view(s: Option<String>) -> Option<Seq<char>> {
    match s {
        Some(x) => Some(x@),
        None => None,
    }
}

/// No two entries are equal ignoring ASCII case.
pub open spec fn no_duplicates(s: Seq<Seq<char>>) -> bool {
    forall|i: int, j: int|
        0 <= i < j < s.len() ==> !ascii_eq_ignore_case(#[trigger] s[i], #[trigger] s[j])
}

/// The last snapshot taken and the apps that were recently in front.
pub struct SensingState {
    pub latest: ForegroundSnapshot,
    /// Most recent first, without the app itself.
    pub recent: Vec<String>,
}

impl Default for SensingState {
    fn default() -> (s: Self)
        ensures
            is_empty_snapshot(s.latest),
            s.recent@.len() == 0,
    {
        SensingState { latest: ForegroundSnapshot::empty(), recent: Vec::new() }
    }
}

/// Index of the first entry of `v` that equals `x` ignoring ASCII case.
fn position_ci(v: &Vec<String>, x: &str) -> (r: Option<usize>)
    ensures
        match r {
            Some(i) => first_match(names(v@), x@) == i as int && i < v@.len(),
            None => first_match(names(v@), x@) == -1,
        },
{
    let n = v.len();
    let mut i: usize = 0;
    while i < n
        invariant
            n == v@.len(),
            i <= n,
            forall|j: int| 0 <= j < i ==> !ascii_eq_ignore_case(#[trigger] names(v@)[j], x@),
        decreases n - i,
    {
        if eq_ignore_ascii_case(v[i].as_str(), x) {
            proof {
                lemma_first_match(names(v@), x@, i as int);
            }
            return Some(i);
        }
        i = i + 1;
    }
    proof {
        lemma_first_match(names(v@), x@, n as int);
    }
    None
}

impl SensingState {
    /// Moves the snapshot's app to the front of the recent list, unless the
    /// snapshot has no app or shows this app itself (`self_exe`).
    pub fn record_foreground(&mut self, snap: &ForegroundSnapshot, self_exe: &str)
        ensures
            final(self).latest == old(self).latest,
            names(final(self).recent@) == recent_after(
                names(old(self).recent@),
                opt_view(snap.exe),
                self_exe@,
            ),
    {
        let exe = match &snap.exe {
            Some(e) => e.as_str(),
            None => {
                return;
            },
        };
        if eq_ignore_ascii_case(exe, self_exe) {
            return;
        }
        let ghost before = names(self.recent@);
        match position_ci(&self.recent, exe) {
            Some(pos) => {
                self.recent.remove(pos);
                assert(names(self.recent@) =~= before.remove(pos as int));
            },
            None => {},
        }
        assert(names(self.recent@) == without_first_match(before, exe@));
        self.recent.insert(0, String::from_str(exe));
        assert(names(self.recent@) =~= seq![exe@] + without_first_match(before, exe@));
        if self.recent.len() > RECENT_CAP {
            self.recent.truncate(RECENT_CAP);
            assert(names(self.recent@) =~= (seq![exe@] + without_first_match(before, exe@)).take(
                RECENT_CAP as int,
            ));
        }
    }
}

/// Recording an app puts it first and keeps at most `RECENT_CAP` entries.
pub proof fn lemma_recorded_front(recent: Seq<Seq<char>>, exe: Seq<char>)
    ensures
        recorded(recent, exe).len() >= 1,
        recorded(recent, exe)[0] == exe,
        recorded(recent, exe).len() <= RECENT_CAP,
{
    lemma_first_match_facts(recent, exe);
}

/// Recording moves the app to the front and keeps every other entry in its
/// order: with `k` the first entry that names the app (ignoring ASCII case),
/// or -1 when none does, the entries before `k` move one place back, those
/// after it stay, and the list is cut to `RECENT_CAP` entries.
pub proof fn lemma_recorded_order(recent: Seq<Seq<char>>, exe: Seq<char>, k: int)
    requires
        (0 <= k < recent.len() && ascii_eq_ignore_case(recent[k], exe) && forall|j: int|
            0 <= j < k ==> !ascii_eq_ignore_case(#[trigger] recent[j], exe)) || (k == -1
            && forall|j: int| 0 <= j < recent.len() ==> !ascii_eq_ignore_case(#[trigger] recent[j], exe)),
    ensures
        recorded(recent, exe).len() == if k < 0 {
            if recent.len() + 1 > RECENT_CAP {
                RECENT_CAP as int
            } else {
                recent.len() + 1int
            }
        } else {
            if recent.len() > RECENT_CAP {
                RECENT_CAP as int
            } else {
                recent.len() as int
            }
        },
        recorded(recent, exe)[0] == exe,
        forall|i: int|
            1 <= i < recorded(recent, exe).len() ==> #[trigger] recorded(recent, exe)[i] == if k < 0
                || i - 1 < k {
                recent[i - 1]
            } else {
                recent[i]
            },
{
    if k < 0 {
        lemma_first_match(recent, exe, recent.len() as int);
    } else {
        lemma_first_match(recent, exe, k);
    }
    let full = seq![exe] + without_first_match(recent, exe);
    let r = recorded(recent, exe);
    assert forall|i: int| 0 <= i < r.len() implies r[i] == full[i] by {}
}

/// Recording keeps the list free of names that match ignoring ASCII case.
pub proof fn lemma_recorded_no_duplicates(recent: Seq<Seq<char>>, exe: Seq<char>)
    requires
        no_duplicates(recent),
    ensures
        no_duplicates(recorded(recent, exe)),
{
    lemma_first_match_facts(recent, exe);
    let k = first_match(recent, exe);
    let rest = without_first_match(recent, exe);
    let full = seq![exe] + rest;
    // an entry of `rest` is an entry of `recent` at an index other than `k`
    assert forall|j: int| 0 <= j < rest.len() implies (if k < 0 || j < k {
        rest[j] == recent[j]
    } else {
        rest[j] == recent[j + 1]
    }) by {}
    assert forall|j: int| 0 <= j < rest.len() implies !ascii_eq_ignore_case(#[trigger] rest[j], exe) by {
        if k >= 0 && j >= k {
            let a = recent[k];
            let b = recent[j + 1];
            lemma_ascii_eq_ignore_case_equivalence(b, exe, a);
            lemma_ascii_eq_ignore_case_equivalence(a, exe, b);
            assert(!ascii_eq_ignore_case(a, b));
        }
    }
    assert forall|i: int, j: int| 0 <= i < j < full.len() implies !ascii_eq_ignore_case(
        #[trigger] full[i],
        #[trigger] full[j],
    ) by {
        if i == 0 {
            assert(full[j] == rest[j - 1]);
            lemma_ascii_eq_ignore_case_equivalence(exe, rest[j - 1], exe);
        } else {
            assert(full[i] == rest[i - 1]);
            assert(full[j] == rest[j - 1]);
            if k < 0 || j - 1 < k {
            } else if i - 1 < k {
                assert(recent[i - 1] == rest[i - 1]);
                assert(recent[j] == rest[j - 1]);
            } else {
                assert(recent[i] == rest[i - 1]);
                assert(recent[j] == rest[j - 1]);
            }
        }
    }
    let r = recorded(recent, exe);
    assert forall|i: int, j: int| 0 <= i < j < r.len() implies !ascii_eq_ignore_case(
        #[trigger] r[i],
        #[trigger] r[j],
    ) by {
        assert(r[i] == full[i]);
        assert(r[j] == full[j]);
    }
}

/// Recording the same app twice in a row leaves the list as recording it once.
pub proof fn lemma_recorded_idempotent(recent: Seq<Seq<char>>, exe: Seq<char>)
    ensures
        recorded(recorded(recent, exe), exe) == recorded(recent, exe),
{
    let once = recorded(recent, exe);
    lemma_recorded_front(recent, exe);
    lemma_ascii_eq_ignore_case_equivalence(exe, exe, exe);
    assert(first_match(once, exe) == 0);
    assert(without_first_match(once, exe) =~= once.drop_first());
    assert(seq![exe] + once.drop_first() =~= once);
}

/// The foreground snapshot on platforms without a sensing back end.
pub fn snapshot() -> (s: ForegroundSnapshot)
    ensures
        is_empty_snapshot(s),
{
    ForegroundSnapshot::empty()
}

/// The running processes on platforms without a sensing back end: none.
pub fn list_running_processes() -> (v: Vec<RunningProcess>)
    ensures
        v@.len() == 0,
{
    Vec::new()
}

} // verus!
