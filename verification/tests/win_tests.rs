use pawse::overlay::cat_window_monitor;
use pawse::sensing::win::{
    covers_computable, dedup_processes, exe_file_name, idle_seconds, is_user_window, list_running_processes,
    monitor_index, monitor_ref, snapshot, sort_by_exe_key, text_le_exec, window_covers_monitor,
    ForegroundWindow, WindowRect,
};
use pawse::sensing::{MonitorRef, RunningProcess};

fn p(exe: &str, title: &str) -> RunningProcess {
    RunningProcess { exe: exe.to_string(), title: title.to_string() }
}

fn pairs(v: &[RunningProcess]) -> Vec<(String, String)> {
    v.iter().map(|x| (x.exe.clone(), x.title.clone())).collect()
}

#[test]
fn idle_from_ticks() {
    assert_eq!(idle_seconds(Some(1000), 62_999), 61);
    assert_eq!(idle_seconds(Some(5000), 1000), 0);
    assert_eq!(idle_seconds(None, 99_999), 0);
}

#[test]
fn file_names() {
    assert_eq!(exe_file_name("C:\\Program Files\\Discord\\Discord.exe"), "Discord.exe");
    assert_eq!(exe_file_name("/usr/bin/firefox"), "firefox");
    assert_eq!(exe_file_name("a/b\\c.exe"), "c.exe");
    assert_eq!(exe_file_name("plain.exe"), "plain.exe");
    assert_eq!(exe_file_name("dir\\"), "");
    assert_eq!(exe_file_name(""), "");
}

#[test]
fn monitor_bounds() {
    let m = monitor_ref(WindowRect { left: -1920, top: 0, right: 0, bottom: 1080 });
    assert_eq!(m, MonitorRef { x: -1920, y: 0, width: 1920, height: 1080 });
}

#[test]
fn fullscreen_detection() {
    let m = MonitorRef { x: 0, y: 0, width: 1920, height: 1080 };
    let full = WindowRect { left: 0, top: 0, right: 1920, bottom: 1080 };
    let bigger = WindowRect { left: -8, top: -8, right: 1928, bottom: 1088 };
    let small = WindowRect { left: 0, top: 0, right: 800, bottom: 600 };
    let offset = WindowRect { left: 1, top: 0, right: 1921, bottom: 1080 };
    assert!(window_covers_monitor(Some(full), Some(m)));
    assert!(window_covers_monitor(Some(bigger), Some(m)));
    assert!(!window_covers_monitor(Some(small), Some(m)));
    assert!(!window_covers_monitor(Some(offset), Some(m)));
    assert!(!window_covers_monitor(None, Some(m)));
    assert!(!window_covers_monitor(Some(full), None));
}

#[test]
fn user_windows() {
    assert!(is_user_window(true, false, 0, Some(0), 5));
    assert!(is_user_window(true, false, 0x100, None, 5));
    assert!(!is_user_window(false, false, 0, None, 5));
    assert!(!is_user_window(true, true, 0, None, 5));
    assert!(!is_user_window(true, false, 0x80, None, 5));
    assert!(!is_user_window(true, false, 0, Some(2), 5));
    assert!(!is_user_window(true, false, 0, None, 0));
}

#[test]
fn monitor_indices() {
    let hs = vec![10usize, 20, 30, 20];
    assert_eq!(monitor_index(&hs, 20), Some(1));
    assert_eq!(monitor_index(&hs, 40), None);
}

#[test]
fn snapshots() {
    let s = snapshot(7, None);
    assert_eq!(s.idle_for_secs, 7);
    assert!(s.exe.is_none() && !s.is_fullscreen);
    let m = MonitorRef { x: 0, y: 0, width: 100, height: 100 };
    let w = ForegroundWindow {
        exe: Some("a.exe".into()),
        monitor_index: Some(1),
        monitor: Some(m),
        rect: Some(WindowRect { left: 0, top: 0, right: 100, bottom: 100 }),
    };
    let s2 = snapshot(3, Some(w));
    assert_eq!(s2.exe.as_deref(), Some("a.exe"));
    assert!(s2.is_fullscreen);
    assert_eq!(s2.monitor_index, Some(1));
    assert_eq!(s2.monitor, Some(m));
}

#[test]
fn code_point_order() {
    assert!(text_le_exec("", "a"));
    assert!(text_le_exec("a", "a"));
    assert!(text_le_exec("ab", "b"));
    assert!(!text_le_exec("b", "ab"));
    assert!(!text_le_exec("abc", "ab"));
    assert!(text_le_exec("Z", "a"));
    assert!(text_le_exec("z", "é"));
}

#[test]
fn dedup_keeps_first_and_fills_title() {
    let entries = vec![
        p("Code.exe", ""),
        p("pawse.exe", "Settings"),
        p("code.EXE", "main.rs"),
        p("Code.exe", "other"),
        p("steam.exe", "Steam"),
    ];
    let d = dedup_processes(&entries, "PAWSE.EXE");
    assert_eq!(
        pairs(&d),
        vec![("Code.exe".into(), "main.rs".into()), ("steam.exe".into(), "Steam".into())]
    );
    // an empty self name skips nothing
    let d2 = dedup_processes(&vec![p("", "x")], "");
    assert_eq!(pairs(&d2), vec![("".to_string(), "x".to_string())]);
}

#[test]
fn sorted_by_given_keys_stably() {
    let procs = vec![p("b", "1"), p("a", "2"), p("c", "3"), p("a2", "4")];
    let keys = vec!["k".to_string(), "j".to_string(), "k".to_string(), "a".to_string()];
    let sorted = sort_by_exe_key(&procs, &keys);
    let exes: Vec<String> = sorted.iter().map(|x| x.exe.clone()).collect();
    assert_eq!(exes, vec!["a2", "a", "b", "c"]);
}

#[test]
fn listed_processes_sorted_by_lowercase_name() {
    let entries = vec![p("Zed.exe", "Z"), p("alpha.exe", "A"), p("ÉCLAIR.exe", "E"), p("beta.exe", "")];
    let listed = list_running_processes(&entries, "pawse.exe");
    let exes: Vec<String> = listed.iter().map(|x| x.exe.clone()).collect();
    assert_eq!(exes, vec!["alpha.exe", "beta.exe", "Zed.exe", "ÉCLAIR.exe"]);
}

#[test]
fn cat_monitor_choice() {
    assert_eq!(cat_window_monitor(3, 1), Ok(1));
    assert_eq!(cat_window_monitor(3, 7), Ok(0));
    assert_eq!(cat_window_monitor(0, 0), Err("no monitors available".to_string()));
}

#[test]
fn covers_sizes_computable() {
    let m = MonitorRef { x: 0, y: 0, width: 100, height: 100 };
    let wide = WindowRect { left: i32::MIN, top: 0, right: i32::MAX, bottom: 100 };
    assert!(!covers_computable(Some(wide), Some(m)));
    // corner off the monitor: no size is computed
    let off = WindowRect { left: 5, top: 0, right: i32::MIN, bottom: 100 };
    assert!(covers_computable(Some(off), Some(m)));
    assert!(covers_computable(Some(wide), None));
    assert!(covers_computable(None, Some(m)));
}
