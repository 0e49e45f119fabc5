use fleetops::board::{MatchedPane, SessionRow};
use fleetops::collect::discover;
use fleetops::discovery::ScanStats;
use fleetops::error::AppError;
use fleetops::fold::Status;
use fleetops::snapshot::{crashed_document, scan_ok, snapshot_of, SessionJson};

fn matched_row() -> SessionRow {
    SessionRow {
        session_id: "s1".to_string(),
        name: "Pick an option".to_string(),
        account: Some("alpha".to_string()),
        status: Status::NeedsAnswer,
        cwd: "/tui/fleetops".to_string(),
        context_tokens: Some(120_000),
        ctx_pct: Some(60),
        secs_since_append: Some(3),
        stream: Some("gtm-studio".to_string()),
        branch: Some("main".to_string()),
        pane: Some(MatchedPane {
            surface_id: "uuid-47".to_string(),
            window_index: 1,
            tab_index: 1,
            stream: "a-stream".to_string(),
        }),
        pts: None,
    }
}

fn unmatched_row() -> SessionRow {
    SessionRow {
        session_id: "s2".to_string(),
        name: "young session".to_string(),
        account: None,
        status: Status::Working,
        cwd: "/home/user/x".to_string(),
        context_tokens: None,
        ctx_pct: None,
        secs_since_append: None,
        stream: None,
        branch: None,
        pane: None,
        pts: None,
    }
}

#[test]
fn the_document_tells_of_each_row_in_order() {
    let doc = snapshot_of(Some("uuid-focused".to_string()), &[matched_row(), unmatched_row()]);
    assert_eq!(doc.focused_surface_id.as_deref(), Some("uuid-focused"));
    assert_eq!(
        doc.sessions,
        vec![
            SessionJson {
                n: 1,
                name: "Pick an option".to_string(),
                status: "NeedsAnswer",
                tokens: Some(120_000),
                ctx_pct: Some(60),
                age_secs: Some(3),
                surface_id: Some("uuid-47".to_string()),
                tab_index: Some(1),
                cwd: "/tui/fleetops".to_string(),
                session_id: "s1".to_string(),
            },
            SessionJson {
                n: 2,
                name: "young session".to_string(),
                status: "Working",
                tokens: None,
                ctx_pct: None,
                age_secs: None,
                surface_id: None,
                tab_index: None,
                cwd: "/home/user/x".to_string(),
                session_id: "s2".to_string(),
            }
        ]
    );
}

#[test]
fn an_empty_fleet_is_a_document_too() {
    let doc = snapshot_of(None, &[]);
    assert_eq!(doc.focused_surface_id, None);
    assert!(doc.sessions.is_empty());
}

#[test]
fn a_scan_is_ok_unless_the_directory_was_unreadable() {
    assert!(scan_ok(&ScanStats::default()));
    assert!(!scan_ok(&ScanStats { dir_unreadable: true, ..ScanStats::default() }));
}

#[test]
fn a_failed_process_table_is_a_broken_sensor_not_an_empty_fleet() {
    assert!(!scan_ok(&ScanStats { procs_unavailable: true, ..ScanStats::default() }));
    let failed = AppError::Subprocess { program: "ps".to_string(), message: "exit 1".to_string() };
    let found = discover(Some(Vec::new()), Err(failed));
    assert!(found.sessions.is_empty());
    assert!(!scan_ok(&found.stats));
}

#[test]
fn a_crashed_scan_says_so() {
    assert_eq!(
        crashed_document("task 7 panicked"),
        "{\"error\":\"snapshot scan task failed: task 7 panicked\"}"
    );
}
