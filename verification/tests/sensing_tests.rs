use pawse::sensing::{list_running_processes, snapshot, ForegroundSnapshot, SensingState};

fn snap(exe: Option<&str>) -> ForegroundSnapshot {
    let mut s = ForegroundSnapshot::empty();
    s.exe = exe.map(|e| e.to_string());
    s
}

#[test]
fn empty_snapshot() {
    let s = ForegroundSnapshot::empty();
    assert!(s.exe.is_none());
    assert_eq!(s.idle_for_secs, 0);
    assert!(!s.is_fullscreen);
    assert!(s.monitor_index.is_none());
    assert!(s.monitor.is_none());
    assert!(snapshot().exe.is_none());
    assert!(list_running_processes().is_empty());
    assert!(pawse::sensing::mac::snapshot().exe.is_none());
    assert!(pawse::sensing::mac::list_running_processes().is_empty());
}

#[test]
fn recent_most_recent_first_without_duplicates() {
    let mut st = SensingState::default();
    st.record_foreground(&snap(Some("a.exe")), "pawse.exe");
    st.record_foreground(&snap(Some("b.exe")), "pawse.exe");
    st.record_foreground(&snap(Some("A.EXE")), "pawse.exe");
    assert_eq!(st.recent, vec!["A.EXE".to_string(), "b.exe".to_string()]);
}

#[test]
fn recent_skips_self_and_missing() {
    let mut st = SensingState::default();
    st.record_foreground(&snap(Some("PAWSE.exe")), "pawse.exe");
    st.record_foreground(&snap(None), "pawse.exe");
    assert!(st.recent.is_empty());
}

#[test]
fn recent_is_capped_at_five() {
    let mut st = SensingState::default();
    for name in ["1", "2", "3", "4", "5", "6", "7"] {
        st.record_foreground(&snap(Some(name)), "pawse.exe");
    }
    assert_eq!(st.recent, vec!["7", "6", "5", "4", "3"]);
}

#[test]
fn recording_twice_is_recording_once() {
    let mut st = SensingState::default();
    st.record_foreground(&snap(Some("x")), "p");
    st.record_foreground(&snap(Some("y")), "p");
    let once = st.recent.clone();
    st.record_foreground(&snap(Some("y")), "p");
    assert_eq!(st.recent, once);
}
