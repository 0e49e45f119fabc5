use fleetops::board::SessionRow;
use fleetops::cmux::{Surface, SurfaceCache};
use fleetops::codex::{ProcInfo, RolloutCandidate};
use fleetops::collect::{collect, discover, CodexSample};
use fleetops::discovery::{NativeStatus, SessionFile};
use fleetops::error::AppError;
use fleetops::fold::Status;
use fleetops::procsrc::{ProcFacts, ProcTable};
use fleetops::telemetry::Telemetry;

const START: &str = "Thu Jul 16 19:10:07 2026";

fn file(pid: u32, name: &str, status: NativeStatus) -> Option<SessionFile> {
    Some(SessionFile {
        pid,
        session_id: format!("sid-{pid}"),
        cwd: "/w".to_string(),
        proc_start: START.to_string(),
        name: name.to_string(),
        status,
        updated_at_ms: 1,
        version: None,
    })
}

fn table(pids: &[u32]) -> ProcTable {
    let mut out = ProcTable::new();
    for pid in pids {
        out.insert(
            *pid,
            ProcFacts {
                lstart: START.to_string(),
                tty: None,
                surface_id: Some("uuid-1".to_string()),
                account: Some("alpha".to_string()),
                elapsed_secs: 0,
            },
        );
    }
    out
}

fn no_codex() -> CodexSample {
    CodexSample {
        now_secs: 0,
        proc_infos: Vec::new(),
        candidates: Vec::new(),
        tails: Vec::new(),
        branches: Vec::new(),
    }
}

fn surface() -> Surface {
    Surface {
        id: "uuid-1".to_string(),
        window_index: 1,
        tab_index: 2,
        name: "stream".to_string(),
        cwd: String::new(),
    }
}

fn timeout(program: &str) -> AppError {
    AppError::Timeout { program: program.to_string(), seconds: 5 }
}

#[test]
fn one_pass_joins_both_agents_in_one_sort() {
    let files = vec![file(1, "b", NativeStatus::Idle), file(2, "a", NativeStatus::Busy)];
    let found = discover(Some(files), Ok(table(&[1, 2])));
    assert_eq!(found.proc_error, None);
    let sample = CodexSample {
        now_secs: 1_000,
        proc_infos: vec![ProcInfo {
            pid: 9,
            cwd: "/c".to_string(),
            pts: None,
            surface_id: None,
            elapsed_secs: 10,
        }],
        candidates: vec![RolloutCandidate {
            session_id: "rollout".to_string(),
            cwd: "/c".to_string(),
            mtime_secs: 999,
        }],
        tails: vec![br#"{"type":"response_item"}"#.to_vec()],
        branches: vec![None],
    };
    let mut cache = SurfaceCache::default();
    let tel = [Telemetry::default(), Telemetry::default()];
    let branches = [Some("main".to_string()), None];
    let got = collect(found, &tel, &branches, &mut cache, Ok(vec![surface()]), &sample);
    let order: Vec<(&str, Status)> =
        got.rows.iter().map(|r| (r.session_id.as_str(), r.status)).collect();
    assert_eq!(
        order,
        vec![
            ("sid-2", Status::Working),
            ("rollout", Status::Working),
            ("sid-1", Status::Idle)
        ]
    );
    assert_eq!(got.rows[2].branch.as_deref(), Some("main"));
    assert_eq!(got.rows[2].account.as_deref(), Some("alpha"));
    assert_eq!(got.rows[0].stream.as_deref(), Some("stream"));
    assert_eq!(got.codex_count, 1);
    assert_eq!(got.lane_error, None);
    assert_eq!(got.stats.live, 2);
}

#[test]
fn a_failed_process_table_is_flagged_and_outranks_a_failed_topology() {
    let files = vec![file(1, "b", NativeStatus::Idle)];
    let found = discover(Some(files), Err(timeout("ps")));
    assert!(found.sessions.is_empty());
    assert!(found.stats.procs_unavailable);
    assert_eq!(found.stats.stale_dead, 1);
    let mut cache = SurfaceCache::default();
    let got = collect(found, &[], &[], &mut cache, Err(timeout("osascript")), &no_codex());
    assert_eq!(
        got.lane_error.as_deref(),
        Some("process table: ps: timed out after 5s")
    );
    assert!(got.rows.is_empty());
}

#[test]
fn a_failed_topology_costs_nothing_while_the_last_good_one_is_known() {
    let mut cache = SurfaceCache::default();
    let pass = |cache: &mut SurfaceCache, surfaces| {
        let found = discover(Some(vec![file(1, "b", NativeStatus::Idle)]), Ok(table(&[1])));
        collect(found, &[Telemetry::default()], &[], cache, surfaces, &no_codex())
    };
    let first = pass(&mut cache, Ok(vec![surface()]));
    let second = pass(&mut cache, Err(timeout("osascript")));
    assert_eq!(first.rows, second.rows);
    assert_eq!(second.rows[0].pane.as_ref().map(|p| p.tab_index), Some(2));
    assert_eq!(second.lane_error.as_deref(), Some("osascript: timed out after 5s"));
}

#[test]
fn an_unreadable_directory_is_flagged() {
    let found = discover(None, Ok(table(&[1])));
    assert!(found.stats.dir_unreadable);
    assert!(!found.stats.procs_unavailable);
    assert!(found.sessions.is_empty());
}

#[test]
fn the_topology_moves_no_row() {
    let pass = |surfaces: Vec<Surface>| {
        let files = vec![file(1, "b", NativeStatus::Idle), file(2, "z", NativeStatus::Busy)];
        let sample = CodexSample {
            now_secs: 1_000,
            proc_infos: vec![ProcInfo {
                pid: 9,
                cwd: "/c".to_string(),
                pts: Some("/dev/ttys001".to_string()),
                surface_id: Some("uuid-1".to_string()),
                elapsed_secs: 10,
            }],
            ..no_codex()
        };
        let tel = [Telemetry::default(), Telemetry::default()];
        let found = discover(Some(files), Ok(table(&[1, 2])));
        collect(found, &tel, &[], &mut SurfaceCache::default(), Ok(surfaces), &sample).rows
    };
    let with = pass(vec![surface()]);
    let without = pass(Vec::new());
    assert!(with.iter().all(|r| r.pane.is_some()) && without.iter().all(|r| r.pane.is_none()));
    let bare: Vec<SessionRow> =
        with.into_iter().map(|r| SessionRow { pane: None, stream: None, ..r }).collect();
    assert_eq!(bare, without);
}
