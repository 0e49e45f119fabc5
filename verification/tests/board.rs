use fleetops::board::{
    assemble, clamp_pct_u8, dir_name, format_age, match_surface, sort_rows, MatchedPane,
    SessionRow,
};
use fleetops::cmux::Surface;
use fleetops::discovery::{LiveSession, NativeStatus, SessionFile};
use fleetops::fold::Status;
use fleetops::telemetry::{TailFacts, Telemetry};

fn surface(id: &str, tab_index: u32, cwd: &str) -> Surface {
    Surface {
        id: id.to_string(),
        window_index: 1,
        tab_index,
        name: String::new(),
        cwd: cwd.to_string(),
    }
}

fn matched(id: &str, tab_index: u32) -> MatchedPane {
    MatchedPane {
        surface_id: id.to_string(),
        window_index: 1,
        tab_index,
        stream: String::new(),
    }
}

fn session(id: &str, cwd: &str, name: &str, status: NativeStatus) -> LiveSession {
    LiveSession {
        file: SessionFile {
            pid: 1,
            session_id: id.to_string(),
            cwd: cwd.to_string(),
            proc_start: "1".to_string(),
            name: name.to_string(),
            status,
            updated_at_ms: 0,
            version: None,
        },
        account: Some("alpha".to_string()),
        surface_id: None,
        pts: None,
    }
}

/// A session running inside a surface, i.e. one that can be jumped to.
fn session_in(id: &str, cwd: &str, name: &str, status: NativeStatus, sid: &str) -> LiveSession {
    LiveSession {
        surface_id: Some(sid.to_string()),
        pts: Some("/dev/ttys003".to_string()),
        ..session(id, cwd, name, status)
    }
}

fn telemetry(facts: Option<TailFacts>, age: Option<u64>) -> Telemetry {
    Telemetry { facts, secs_since_append: age }
}

#[test]
fn match_surface_table() {
    let surfaces = [
        surface("uuid-a", 1, "/a"),
        surface("uuid-b", 2, "/b"),
        surface("uuid-c", 3, "/b"),
    ];
    assert_eq!(match_surface(Some("uuid-b"), &surfaces), Some(matched("uuid-b", 2)));
    assert_eq!(match_surface(None, &surfaces), None);
    assert_eq!(match_surface(Some("uuid-gone"), &surfaces), None);
    assert_eq!(match_surface(Some("uuid-a"), &[]), None);
}

#[test]
fn a_shared_cwd_can_never_cause_a_mismatch() {
    let surfaces = [surface("uuid-b", 2, "/same"), surface("uuid-c", 3, "/same")];
    assert_eq!(
        match_surface(Some("uuid-c"), &surfaces),
        Some(matched("uuid-c", 3)),
        "the id decides; the duplicate cwd is not consulted"
    );
}

#[test]
fn the_first_of_two_surfaces_with_one_id_is_matched() {
    let surfaces = [surface("uuid-b", 2, "/x"), surface("uuid-b", 3, "/y")];
    assert_eq!(match_surface(Some("uuid-b"), &surfaces), Some(matched("uuid-b", 2)));
}

#[test]
fn assemble_falls_back_to_native_name_on_empty_ai_title() {
    let sessions = [session_in("s1", "/a", "native", NativeStatus::Busy, "uuid-3")];
    let tel = [telemetry(
        Some(TailFacts { ai_title: Some(String::new()), ..TailFacts::default() }),
        Some(1),
    )];
    let rows = assemble(&sessions, &tel, &[], &[surface("uuid-3", 3, "/z")]);
    assert_eq!(rows[0].name, "native");
    assert_eq!(
        rows[0].pane,
        Some(matched("uuid-3", 3)),
        "the surface matches on id, independent of the name"
    );
}

#[test]
fn dir_name_table() {
    let cases = [
        ("/home/user/project-a", "project-a"),
        ("/tui/fleetops", "fleetops"),
        ("/tui", "tui"),
        ("/", "/"),
        ("", "/"),
    ];
    for (cwd, want) in cases {
        assert_eq!(dir_name(cwd), want, "cwd {cwd:?}");
    }
}

#[test]
fn dir_name_skips_trailing_slashes_and_takes_a_bare_name() {
    let cases = [("/a/b///", "b"), ("////", "/"), ("name", "name"), ("/é/ü", "ü")];
    for (cwd, want) in cases {
        assert_eq!(dir_name(cwd), want, "cwd {cwd:?}");
    }
}

#[test]
fn assemble_prefers_ai_title_and_sorts_attention_first() {
    let sessions = [
        session("s-idle", "/a", "idle native", NativeStatus::Idle),
        session_in("s-ask", "/b", "ask native", NativeStatus::Busy, "uuid-7"),
        session("s-work", "/c", "work native", NativeStatus::Busy),
    ];
    let tel = [
        telemetry(Some(TailFacts::default()), Some(10)),
        telemetry(
            Some(TailFacts {
                pending_question: true,
                ai_title: Some("Pick an option".to_string()),
                context_tokens: Some(120_000),
            }),
            Some(5),
        ),
        telemetry(Some(TailFacts::default()), Some(10)),
    ];
    let rows = assemble(&sessions, &tel, &[], &[surface("uuid-7", 7, "/b")]);
    assert_eq!(rows[0].session_id, "s-ask", "NeedsAnswer sorts first");
    assert_eq!(rows[0].status, Status::NeedsAnswer);
    assert_eq!(rows[0].name, "Pick an option", "ai-title wins");
    assert_eq!(rows[0].pane, Some(matched("uuid-7", 7)));
    assert_eq!(rows[0].context_tokens, Some(120_000));
    assert_eq!(rows[1].status, Status::Working);
    assert_eq!(rows[2].status, Status::Idle);
}

#[test]
fn assemble_without_transcript_uses_native_name_and_no_tokens() {
    let sessions = [session("s1", "/a", "native", NativeStatus::Busy)];
    let rows = assemble(&sessions, &[Telemetry::default()], &[], &[]);
    assert_eq!(rows[0].name, "native");
    assert_eq!(rows[0].context_tokens, None);
    assert_eq!(rows[0].status, Status::Working, "no transcript = young, not stalled");
}

#[test]
fn assemble_carries_stream_branch_and_context_percent() {
    let named = Surface { name: "gtm-studio".to_string(), ..surface("uuid-1", 2, "/a") };
    let sessions = [session_in("s1", "/a", "native", NativeStatus::Busy, "uuid-1")];
    let tel = [telemetry(
        Some(TailFacts { context_tokens: Some(120_000), ..TailFacts::default() }),
        Some(301),
    )];
    let rows = assemble(&sessions, &tel, &[Some("feat/x".to_string())], &[named]);
    assert_eq!(rows[0].stream.as_deref(), Some("gtm-studio"));
    assert_eq!(rows[0].branch.as_deref(), Some("feat/x"));
    assert_eq!(rows[0].ctx_pct, Some(60));
    assert_eq!(rows[0].status, Status::Stalled);
    assert_eq!(rows[0].secs_since_append, Some(301));
}

#[test]
fn assemble_drops_sessions_without_telemetry() {
    let sessions = [
        session("s1", "/a", "one", NativeStatus::Busy),
        session("s2", "/b", "two", NativeStatus::Busy),
    ];
    let rows = assemble(&sessions, &[Telemetry::default()], &[], &[]);
    assert_eq!(rows.len(), 1);
    assert_eq!(rows[0].session_id, "s1");
}

#[test]
fn an_absurd_usage_is_clamped() {
    assert_eq!(clamp_pct_u8(60), 60);
    assert_eq!(clamp_pct_u8(255), 255);
    assert_eq!(clamp_pct_u8(u64::MAX), 255);
}

#[test]
fn format_age_table() {
    let cases = [
        (0, "0s"),
        (59, "59s"),
        (60, "1m"),
        (3_599, "59m"),
        (7_200, "2h"),
        (90_000, "1d"),
    ];
    for (secs, want) in cases {
        assert_eq!(format_age(secs), want, "secs={secs}");
    }
}

#[test]
fn pts_flows_to_the_row_only_when_the_session_is_in_a_cmux_surface() {
    let in_cmux = LiveSession {
        surface_id: Some("uuid-4".to_string()),
        pts: Some("/dev/ttys002".to_string()),
        ..session("s1", "/a", "one", NativeStatus::Busy)
    };
    let outside_cmux = LiveSession {
        surface_id: None,
        pts: Some("/dev/ttys002".to_string()),
        ..session("s2", "/b", "two", NativeStatus::Busy)
    };
    let tel = [Telemetry::default(), Telemetry::default()];
    let rows = assemble(&[in_cmux, outside_cmux], &tel, &[], &[]);
    let pts_of = |id: &str| rows.iter().find(|r| r.session_id == id).unwrap().pts.clone();
    assert_eq!(
        pts_of("s1"),
        Some("/dev/ttys002".to_string()),
        "in a cmux surface -> pts flows through to the row"
    );
    assert_eq!(
        pts_of("s2"),
        None,
        "outside cmux -> never highlightable, pts withheld even though ps knew the tty"
    );
}

fn minimal_row(id: &str, status: Status) -> SessionRow {
    SessionRow {
        session_id: id.to_string(),
        name: id.to_string(),
        account: None,
        status,
        cwd: String::new(),
        context_tokens: None,
        ctx_pct: None,
        secs_since_append: None,
        stream: None,
        branch: None,
        pane: None,
        pts: None,
    }
}

fn ids(rows: &[SessionRow]) -> Vec<&str> {
    rows.iter().map(|r| r.session_id.as_str()).collect()
}

#[test]
fn sort_rows_interleaves_codex_and_claude_rows_by_status_bucket() {
    let mut rows = vec![
        minimal_row("codex-idle", Status::Idle),
        minimal_row("claude_ask", Status::NeedsAnswer),
        minimal_row("codex-working", Status::Working),
        minimal_row("claude_stalled", Status::Stalled),
    ];
    sort_rows(&mut rows);
    assert_eq!(
        ids(&rows),
        vec!["claude_ask", "claude_stalled", "codex-working", "codex-idle"],
        "attention buckets first, both agents interleaved by status alone"
    );
}

#[test]
fn sort_rows_orders_a_bucket_by_name_and_keeps_ties_in_order() {
    let named = |id: &str, name: &str| SessionRow {
        name: name.to_string(),
        ..minimal_row(id, Status::Working)
    };
    let mut rows = vec![
        named("1", "b"),
        named("2", "a"),
        named("3", "é"),
        named("4", "b"),
        named("5", "B"),
        named("6", ""),
        named("7", "ab"),
    ];
    let mut want = rows.clone();
    want.sort_by(|a, b| a.name.cmp(&b.name));
    sort_rows(&mut rows);
    assert_eq!(rows, want);
    assert_eq!(ids(&rows), vec!["6", "5", "2", "7", "1", "4", "3"]);
}

#[test]
fn without_a_topology_the_board_shows_every_session_as_before() {
    let sessions = [
        session_in("s1", "/a", "one", NativeStatus::Busy, "uuid-1"),
        session("s2", "/b", "two", NativeStatus::Waiting),
    ];
    let tel = [Telemetry::default(), Telemetry::default()];
    let with = assemble(&sessions, &tel, &[], &[surface("uuid-1", 4, "/a")]);
    let without = assemble(&sessions, &tel, &[], &[]);
    assert_eq!(ids(&with), ids(&without));
    assert_eq!(with[1].pane, Some(matched("uuid-1", 4)));
    assert_eq!(without[1].pane, None);
    let bare: Vec<SessionRow> = with
        .into_iter()
        .map(|r| SessionRow { pane: None, stream: None, ..r })
        .collect();
    assert_eq!(bare, without);
}
