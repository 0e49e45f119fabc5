use fleetops::cmux::Surface;
use fleetops::discovery::{LiveSession, NativeStatus, ScanStats, SessionFile};
use fleetops::doctor::{gather, render_report, render_report_with, scan_ok, DoctorFacts};
use fleetops::error::AppError;
use fleetops::telemetry::{TailFacts, Telemetry};
use fleetops::textset::TextSet;

fn set(items: &[&str]) -> TextSet {
    let mut out = TextSet::default();
    for item in items {
        out.insert(item.to_string());
    }
    out
}

#[test]
fn report_covers_clean_state() {
    let facts = DoctorFacts {
        scan: ScanStats {
            total_files: 36,
            parse_failed: 0,
            stale_dead: 20,
            live: 16,
            ..ScanStats::default()
        },
        versions: set(&["2.1.206"]),
        sessions: vec![("fleetops".to_string(), true, true, true)],
        exact_panes: 1,
        cmux: Ok(4),
        ..DoctorFacts::default()
    };
    let report = render_report(&facts);
    assert!(report.contains("36 total · 16 live · 20 stale-dead · 0 parse-failed"));
    assert!(report.contains("all known"));
    assert!(report.contains("2.1.206"));
    assert!(report.contains("pane identity: 1 of 1 sessions exact (CMUX_SURFACE_ID)"));
    assert!(report.contains("cmux: 4 terminals"));
    assert!(report.contains("✓ transcript · ✓ account · ✓ pane — fleetops"));
    assert!(!report.contains('⚠'));
}

#[test]
fn report_flags_every_drift_class() {
    let facts = DoctorFacts {
        scan: ScanStats {
            total_files: 3,
            parse_failed: 2,
            stale_dead: 0,
            live: 1,
            ..ScanStats::default()
        },
        unknown_statuses: set(&["pondering"]),
        sessions: vec![("mystery".to_string(), false, false, false)],
        cmux: Err("osascript: timed out after 5s".to_string()),
        ..DoctorFacts::default()
    };
    let report = render_report(&facts);
    assert!(report.contains("parse failures"));
    assert!(report.contains("pondering"));
    assert!(report.contains("cmux unreachable"));
    assert!(report.contains("✗ transcript · ✗ account · ✗ pane — mystery"));
}

#[test]
fn unavailable_process_table_is_flagged_not_an_empty_fleet() {
    let facts = DoctorFacts {
        procs_error: Some("ps: exit 1".to_string()),
        ..DoctorFacts::default()
    };
    let report = render_report(&facts);
    assert!(
        report.contains("process table unavailable: ps: exit 1"),
        "a failed ps must name itself"
    );
    assert!(
        report.contains("NOT an empty fleet"),
        "and must not read as a clean, empty board"
    );
}

#[test]
fn unreadable_dir_is_flagged_not_an_empty_fleet() {
    let facts = DoctorFacts {
        scan: ScanStats { dir_unreadable: true, ..ScanStats::default() },
        ..DoctorFacts::default()
    };
    let report = render_report(&facts);
    assert!(report.contains("sessions dir unreadable"));
}

#[test]
fn a_whole_report_to_the_letter() {
    let facts = DoctorFacts {
        scan: ScanStats {
            total_files: 5,
            parse_failed: 1,
            stale_dead: 2,
            live: 2,
            dir_unreadable: true,
            procs_unavailable: true,
        },
        unknown_statuses: set(&["zz", "a\"b", "zz"]),
        versions: set(&["2.1", "1.9"]),
        sessions: vec![("one".to_string(), true, false, true), ("two".to_string(), false, true, false)],
        exact_panes: 0,
        cmux: Ok(3),
        procs_error: Some("ps: gone".to_string()),
    };
    let want = "fleet doctor — read-only drift report\n\n  ⚠ process table unavailable: ps: gone — every session reads as dead, this is NOT an empty fleet\nsession files: 5 total · 2 live · 2 stale-dead · 1 parse-failed\n  ⚠ sessions dir unreadable — scan failed, this is NOT an empty fleet\n  ⚠ parse failures — sessions/<pid>.json format may have drifted (A1)\n  ⚠ unknown native statuses: {\"a\\\"b\", \"zz\"} — fold shows these as Unknown\ncc versions in live files: 1.9, 2.1\npane identity: 0 of 2 sessions exact (CMUX_SURFACE_ID)\ncmux: 3 terminals\n  ⚠ no session carries CMUX_SURFACE_ID — sessions started outside cmux cannot be jumped to\n\nlive sessions (2):\n  ✓ transcript · ✗ account · ✓ pane — one\n  ✗ transcript · ✓ account · ✗ pane — two\n";
    assert_eq!(render_report(&facts), want);
    let quoted = vec!["\"a\\\"b\"".to_string(), "\"zz\"".to_string()];
    assert_eq!(render_report_with(&facts, &quoted), want);
}

#[test]
fn the_report_of_nothing_checked() {
    let want = "fleet doctor — read-only drift report\n\nsession files: 0 total · 0 live · 0 stale-dead · 0 parse-failed\nnative statuses: all known (busy/idle/shell/waiting)\ncc versions in live files: none\npane identity: 0 of 0 sessions exact (CMUX_SURFACE_ID)\n  ⚠ cmux unreachable: not checked — jump lane degraded (A2)\n\nlive sessions (0):\n";
    assert_eq!(render_report(&DoctorFacts::default()), want);
}

fn session(name: &str, status: NativeStatus, version: Option<&str>, sid: Option<&str>) -> LiveSession {
    LiveSession {
        file: SessionFile {
            pid: 1,
            session_id: "s".to_string(),
            cwd: "/w".to_string(),
            proc_start: "1".to_string(),
            name: name.to_string(),
            status,
            updated_at_ms: 0,
            version: version.map(str::to_string),
        },
        account: None,
        surface_id: sid.map(str::to_string),
        pts: None,
    }
}

#[test]
fn gathered_facts_tell_of_every_session() {
    let sessions = [
        session("one", NativeStatus::Other("odd".to_string()), Some("2"), Some("uuid-1")),
        session("two", NativeStatus::Busy, Some("1"), Some("uuid-gone")),
        session("three", NativeStatus::Other("odd".to_string()), None, None),
    ];
    let telemetry = [
        Telemetry { facts: Some(TailFacts::default()), secs_since_append: None },
        Telemetry::default(),
    ];
    let surfaces = vec![Surface {
        id: "uuid-1".to_string(),
        window_index: 1,
        tab_index: 1,
        name: String::new(),
        cwd: String::new(),
    }];
    let scan = ScanStats { total_files: 3, live: 3, ..ScanStats::default() };
    let facts = gather(scan, &sessions, &telemetry, Ok(surfaces), None);
    assert_eq!(facts.scan, scan);
    assert_eq!(facts.unknown_statuses.items(), &vec!["odd".to_string()]);
    assert_eq!(facts.versions.items(), &vec!["1".to_string(), "2".to_string()]);
    assert_eq!(facts.exact_panes, 2);
    assert_eq!(facts.cmux, Ok(1));
    assert_eq!(
        facts.sessions,
        vec![
            ("one".to_string(), true, false, true),
            ("two".to_string(), false, false, false),
            ("three".to_string(), false, false, false)
        ]
    );
    assert!(scan_ok(&facts.scan));
}

#[test]
fn failed_sources_are_gathered_as_failures() {
    let dead = AppError::Subprocess { program: "osascript".to_string(), message: "exit 1".to_string() };
    let facts = gather(ScanStats::default(), &[], &[], Err(dead), Some("ps: exit 1".to_string()));
    assert_eq!(facts.cmux, Err("osascript: exit 1".to_string()));
    assert!(facts.scan.procs_unavailable);
    assert!(!scan_ok(&facts.scan));
    assert!(!scan_ok(&ScanStats { dir_unreadable: true, ..ScanStats::default() }));
}

#[test]
fn a_text_set_is_sorted_and_holds_each_text_once() {
    let items = set(&["b", "", "a", "b", "ab", "é", "B"]);
    assert_eq!(items.items(), &vec!["", "B", "a", "ab", "b", "é"]);
    assert_eq!(items, set(&["é", "b", "B", "ab", "a", ""]), "the order of insertion leaves no trace");
}
