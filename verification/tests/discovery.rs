use fleetops::discovery::{
    is_session_file, live_facts, scan, session_file, starttime_from_stat, NativeStatus,
    RawSessionFile, ScanStats, SessionFile,
};
use fleetops::procsrc::{normalize_lstart, ProcFacts, ProcTable};

#[test]
fn starttime_survives_parens_and_spaces_in_comm() {
    let stat = "42 (weird) name)) R 1 2 3 4 5 6 7 8 9 10 11 12 13 14 15 16 17 18 START 23";
    assert_eq!(starttime_from_stat(stat), Some("START"));
    assert_eq!(starttime_from_stat("no parens here"), None);
    assert_eq!(starttime_from_stat("42 (x) R 1 2 3"), None);
}

fn proc_row(table: &mut ProcTable, pid: u32, lstart: &str, tty: Option<&str>) {
    table.insert(
        pid,
        ProcFacts {
            lstart: normalize_lstart(lstart),
            tty: tty.map(str::to_string),
            surface_id: None,
            account: None,
            elapsed_secs: 0,
        },
    );
}

fn file(pid: u32, proc_start: &str, status: &str) -> Option<SessionFile> {
    Some(session_file(RawSessionFile {
        pid,
        session_id: format!("sid-{pid}"),
        cwd: "/w".to_string(),
        proc_start: proc_start.to_string(),
        name: format!("n{pid}"),
        status: status.to_string(),
        updated_at_ms: 1,
        version: None,
    }))
}

#[test]
fn a_session_file_keeps_what_was_written() {
    let f = session_file(RawSessionFile {
        pid: 105_315,
        session_id: "a01d7cea-b33a-4295-aa48-7a058966cdcb".to_string(),
        cwd: "/Users/user/project-a".to_string(),
        proc_start: "Thu Jul 16 19:10:07 2026".to_string(),
        name: "project-a-fe".to_string(),
        status: "shell".to_string(),
        updated_at_ms: 7,
        version: Some("2.1.206".to_string()),
    });
    assert_eq!(f.pid, 105_315);
    assert_eq!(f.session_id, "a01d7cea-b33a-4295-aa48-7a058966cdcb");
    assert_eq!(f.cwd, "/Users/user/project-a");
    assert_eq!(f.proc_start, "Thu Jul 16 19:10:07 2026");
    assert_eq!(f.name, "project-a-fe");
    assert_eq!(f.status, NativeStatus::Shell);
    assert_eq!(f.updated_at_ms, 7);
    assert_eq!(f.version.as_deref(), Some("2.1.206"));
}

#[test]
fn native_statuses_are_told_apart_and_unknown_ones_kept() {
    assert_eq!(NativeStatus::from("busy"), NativeStatus::Busy);
    assert_eq!(NativeStatus::from("idle"), NativeStatus::Idle);
    assert_eq!(NativeStatus::from("shell"), NativeStatus::Shell);
    assert_eq!(NativeStatus::from("waiting"), NativeStatus::Waiting);
    assert_eq!(
        NativeStatus::from("pondering"),
        NativeStatus::Other("pondering".to_string())
    );
    assert_eq!(NativeStatus::from("Busy"), NativeStatus::Other("Busy".to_string()));
}

#[test]
fn session_file_names() {
    assert!(is_session_file("1.json"));
    assert!(!is_session_file("README.md"));
    assert!(!is_session_file(".json"));
    assert!(!is_session_file("json"));
}

#[test]
fn scan_keeps_live_drops_dead_and_reused_counts_parse_failures() {
    let live_start = "Thu Jul 16 19:10:07 2026";
    let mut procs = ProcTable::new();
    proc_row(&mut procs, 1, live_start, Some("/dev/ttys000"));
    proc_row(&mut procs, 2, "Thu Jul 16 21:00:00 2026", None);
    let files = vec![
        file(1, live_start, "busy"),
        file(2, live_start, "idle"),
        file(3, live_start, "busy"),
        None,
    ];
    let (live, stats) = scan(Some(files), &procs);
    assert_eq!(stats.total_files, 4);
    assert_eq!(stats.parse_failed, 1);
    assert_eq!(stats.stale_dead, 2, "one reused PID + one dead PID");
    assert_eq!(stats.live, 1);
    assert_eq!(live.len(), 1);
    assert_eq!(live[0].file.pid, 1);
    assert_eq!(live[0].pts.as_deref(), Some("/dev/ttys000"));
}

#[test]
fn pid_reuse_is_caught_by_the_start_time_not_the_pid() {
    let mut procs = ProcTable::new();
    proc_row(&mut procs, 7, "Thu Jul 16 19:10:08 2026", None);
    let files = vec![file(7, "Thu Jul 16 19:10:07 2026", "busy")];
    let (live, stats) = scan(Some(files), &procs);
    assert!(live.is_empty(), "a one-second start-time drift is PID reuse");
    assert_eq!(stats.stale_dead, 1);
    assert!(live_facts(&procs, 7, "Thu Jul 16 19:10:08 2026").is_some());
    assert!(live_facts(&procs, 8, "Thu Jul 16 19:10:08 2026").is_none());
}

#[test]
fn liveness_survives_a_space_padded_day_of_month() {
    let mut procs = ProcTable::new();
    proc_row(&mut procs, 9, "Mon Jul  6 19:10:07 2026", None);
    let files = vec![file(9, "Mon Jul 6 19:10:07 2026", "busy")];
    let (live, stats) = scan(Some(files), &procs);
    assert_eq!(stats.live, 1, "padding is not a start-time difference");
    assert_eq!(live.len(), 1);
}

#[test]
fn session_without_a_tty_is_still_live() {
    let start = "Thu Jul 16 19:10:07 2026";
    let mut procs = ProcTable::new();
    proc_row(&mut procs, 5, start, None);
    let (live, stats) = scan(Some(vec![file(5, start, "busy")]), &procs);
    assert_eq!(stats.live, 1, "no tty never drops a live session");
    assert_eq!(live[0].pts, None, "absent → unknown, not error");
    assert_eq!(live[0].account, None);
}

#[test]
fn scan_of_missing_dir_is_flagged_not_a_silent_empty_fleet() {
    let (live, stats) = scan(None, &ProcTable::new());
    assert!(live.is_empty());
    assert!(stats.dir_unreadable);
    assert_eq!(stats.total_files, 0);
}

#[test]
fn an_empty_process_table_drops_everything() {
    let files = vec![file(1, "Thu Jul 16 19:10:07 2026", "busy")];
    let (live, stats) = scan(Some(files), &ProcTable::new());
    assert!(live.is_empty());
    assert_eq!(stats.stale_dead, 1);
    assert!(
        !stats.procs_unavailable,
        "scan cannot know why the table is empty — the fetcher sets this"
    );
}

#[test]
fn every_file_is_counted_once() {
    let start = "Thu Jul 16 19:10:07 2026";
    let mut procs = ProcTable::new();
    proc_row(&mut procs, 1, start, None);
    proc_row(&mut procs, 2, start, None);
    let files = vec![None, file(1, start, "busy"), file(3, start, "x"), file(2, start, "idle")];
    let (live, stats) = scan(Some(files), &procs);
    let pids: Vec<u32> = live.iter().map(|s| s.file.pid).collect();
    assert_eq!(pids, vec![1, 2]);
    assert_eq!(stats.total_files, stats.live + stats.stale_dead + stats.parse_failed);
    assert_eq!(
        stats,
        ScanStats { total_files: 4, parse_failed: 1, stale_dead: 1, live: 2, ..ScanStats::default() }
    );
}
