//! The macOS sensing back end, which does not observe anything yet.
use vstd::prelude::*;

use super::{is_empty_snapshot, ForegroundSnapshot, RunningProcess};

verus! {

/// The foreground snapshot on macOS: empty until frontmost-app, idle-time and
/// window-style queries are wired in.
pub fn snapshot() -> (s: ForegroundSnapshot)
    ensures
        is_empty_snapshot(s),
{
    ForegroundSnapshot::empty()
}

/// The running processes on macOS: none until the running-applications query
/// is wired in.
pub fn list_running_processes() -> (v: Vec<RunningProcess>)
    ensures
        v@.len() == 0,
{
    Vec::new()
}

} // verus!
