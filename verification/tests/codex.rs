use fleetops::cmux::Surface;
use fleetops::codex::{
    after_procs, after_procs_text, build_joined_row, candidates, cwds_spec, is_codex_tui,
    is_rollout, join_rollouts, live_processes, newest_files, parse_cwds, parse_procs, procs_spec,
    scan, session_meta, tail_offset, tail_source, tails_to_read, AfterProcs, CodexProc, ProcInfo,
    RolloutCandidate, SessionMeta, MAX_ROLLOUTS,
};
use fleetops::fold::Status;
use fleetops::procsrc::{ProcFacts, ProcTable};
use fleetops::rollout::RolloutFacts;

const REAL_ARGV0: &str = "/Users/user/.nvm/versions/node/v24.18.0/lib/node_modules/@openai/codex/node_modules/@openai/codex-darwin-arm64/vendor/aarch64-apple-darwin/bin/codex";

#[test]
fn is_codex_tui_table() {
    let node_shim = "node /Users/user/.nvm/versions/node/v24.18.0/bin/codex";
    let exec_form = format!("{REAL_ARGV0} exec --json 'do a thing'");
    let cases: &[(&str, Option<&str>, bool)] = &[
        (REAL_ARGV0, Some("/dev/ttys011"), true),
        ("/opt/homebrew/bin/codex", Some("/dev/ttys004"), true),
        (node_shim, Some("/dev/ttys011"), false),
        (&exec_form, Some("/dev/ttys011"), false),
        ("/opt/homebrew/bin/codex --version", Some("/dev/ttys004"), false),
        (REAL_ARGV0, None, false),
        ("/bin/zsh -l", Some("/dev/ttys004"), false),
        ("", Some("/dev/ttys004"), false),
    ];
    for (argv, tty, want) in cases {
        assert_eq!(is_codex_tui(argv, *tty), *want, "argv={argv:?} tty={tty:?}");
    }
}

#[test]
fn a_bare_name_is_its_own_basename() {
    assert!(is_codex_tui("codex", Some("/dev/ttys011")));
    assert!(!is_codex_tui("/opt/codex/", Some("/dev/ttys011")));
    assert!(!is_codex_tui("mycodex", Some("/dev/ttys011")));
}

#[test]
fn the_full_path_comm_is_why_linuxs_rule_could_not_be_reused() {
    assert_ne!(REAL_ARGV0, "codex", "macOS never hands back a bare basename");
    assert!(is_codex_tui(REAL_ARGV0, Some("/dev/ttys011")));
}

fn ps_args() -> Vec<u8> {
    format!(
        "    1 /sbin/launchd\n51448 node /Users/user/.nvm/versions/node/v24.18.0/bin/codex\n51450 {REAL_ARGV0}\n  888 /bin/zsh -l\n"
    )
    .into_bytes()
}

const LSOF_FIXTURE: &[u8] = b"p51448\nfcwd\nn/private/tmp\np51450\nfcwd\nn/private/tmp\n";

#[test]
fn ps_fixture_finds_the_real_binary_and_rejects_the_shim() {
    let tty = |_pid: u32| Some("/dev/ttys011".to_string());
    let pids = parse_procs(&ps_args(), &tty);
    assert_eq!(pids, vec![51450], "only the real codex binary");
}

#[test]
fn ps_gate_requires_a_tty_so_a_piped_codex_is_not_a_tui() {
    let no_tty = |_pid: u32| None;
    assert!(parse_procs(&ps_args(), &no_tty).is_empty());
}

#[test]
fn ps_rows_that_are_garbage_are_skipped_not_fatal() {
    let tty = |_pid: u32| Some("/dev/ttys001".to_string());
    let input = b"not-a-pid /opt/homebrew/bin/codex\n\n99\n  7 /opt/homebrew/bin/codex\n";
    assert_eq!(parse_procs(input, &tty), vec![7]);
}

#[test]
fn a_ps_row_with_bytes_that_are_not_text_is_still_read() {
    let tty = |_pid: u32| Some("/dev/ttys001".to_string());
    assert_eq!(parse_procs(b"8 /\xff/codex\n", &tty), vec![8]);
}

#[test]
fn lsof_fixture_yields_the_cwd_join_key() {
    let cwds = parse_cwds(LSOF_FIXTURE);
    assert_eq!(cwds.get(&51450).map(String::as_str), Some("/private/tmp"));
    assert_eq!(cwds.get(&51448).map(String::as_str), Some("/private/tmp"));
    assert_eq!(cwds.len(), 2);
}

#[test]
fn lsof_garbage_is_empty_not_a_panic() {
    assert!(parse_cwds(b"").is_empty());
    assert!(parse_cwds(b"total nonsense").is_empty());
    assert!(
        parse_cwds(b"n/orphan/path\n").is_empty(),
        "an n-line with no preceding p-line names no process"
    );
}

#[test]
fn the_first_directory_of_a_pid_wins_and_a_bad_pid_has_none() {
    let cwds = parse_cwds(b"p7\nn/first\nn/second\npX\nn/third\np7\nn/fourth\np8\nn /padded \n");
    assert_eq!(cwds.get(&7).map(String::as_str), Some("/first"));
    assert_eq!(cwds.get(&8).map(String::as_str), Some("/padded"));
    assert_eq!(cwds.len(), 2);
}

#[test]
fn specs_are_explicit_argv_and_the_ps_call_never_asks_for_environments() {
    let spec = procs_spec();
    assert_eq!(spec.program, "ps");
    assert_eq!(spec.args, vec!["-Awwo", "pid=,args="]);
    assert!(
        !spec.args[0].contains('E'),
        "-E would append the environment to the command with no delimiter, making the argv \
         token count (the whole gate) meaningless — and would pull every process's secrets in"
    );
    let cwds = cwds_spec(&[7, 9]);
    assert_eq!(cwds.program, "lsof");
    assert!(cwds.args.contains(&"7,9".to_string()), "one batched call");
    assert_eq!(cwds.args, vec!["-a", "-d", "cwd", "-p", "7,9", "-Fpn"]);
}

fn facts(tty: Option<&str>) -> ProcFacts {
    ProcFacts {
        lstart: "Thu Jul 16 19:10:07 2026".to_string(),
        tty: tty.map(str::to_string),
        surface_id: Some("uuid-1".to_string()),
        account: None,
        elapsed_secs: 30,
    }
}

#[test]
fn fetch_skips_lsof_entirely_when_no_codex_is_running() {
    let step = after_procs(b"  888 /bin/zsh -l\n", &ProcTable::new());
    assert!(
        matches!(step, AfterProcs::NoCodex),
        "no Codex is the common case; it must not cost an lsof"
    );
}

#[test]
fn one_batched_call_follows_where_codex_runs() {
    let mut table = ProcTable::new();
    table.insert(51450, facts(Some("/dev/ttys011")));
    table.insert(60000, facts(None));
    let text = format!("51450 {REAL_ARGV0}\n60000 /bin/codex\n60001 /bin/codex\n");
    match after_procs_text(&text, &table) {
        AfterProcs::AskCwds { pids, command } => {
            assert_eq!(pids, vec![51450], "no tty, or not in the table: not a TUI");
            assert_eq!(command, cwds_spec(&[51450]));
        }
        AfterProcs::NoCodex => panic!("a Codex TUI is running"),
    }
}

#[test]
fn a_process_without_a_directory_is_dropped() {
    let mut table = ProcTable::new();
    table.insert(51448, facts(Some("/dev/ttys011")));
    table.insert(7, facts(Some("/dev/ttys012")));
    let infos = live_processes(&[7, 51448, 9], &table, &parse_cwds(LSOF_FIXTURE));
    assert_eq!(
        infos,
        vec![ProcInfo {
            pid: 51448,
            cwd: "/private/tmp".to_string(),
            pts: Some("/dev/ttys011".to_string()),
            surface_id: Some("uuid-1".to_string()),
            elapsed_secs: 30,
        }]
    );
}

#[test]
fn only_a_session_meta_line_names_a_session() {
    let want = SessionMeta {
        id: "7c9e6679-7425-40de-944b-e07fc1f90ae7".to_string(),
        cwd: "/home/user/x".to_string(),
    };
    assert_eq!(
        session_meta("session_meta", want.id.clone(), want.cwd.clone()),
        Some(want.clone())
    );
    assert_eq!(session_meta("task_started", want.id, want.cwd), None);
}

const SLACK_SECS: u64 = 600;

fn codex_proc(cwd: &str, start_wallclock_secs: u64) -> CodexProc {
    CodexProc { cwd: cwd.to_string(), start_wallclock_secs }
}

fn candidate(session_id: &str, cwd: &str, mtime_secs: u64) -> RolloutCandidate {
    RolloutCandidate {
        session_id: session_id.to_string(),
        cwd: cwd.to_string(),
        mtime_secs,
    }
}

#[test]
fn join_picks_the_newest_same_cwd_candidate() {
    let procs = [codex_proc("/a", 1_000)];
    let rollouts = [candidate("old", "/a", 500), candidate("new", "/a", 900)];
    assert_eq!(
        join_rollouts(&procs, &rollouts),
        vec![Some(&rollouts[1])],
        "newest same-cwd rollout wins"
    );
}

#[test]
fn join_takes_the_last_of_equally_new_candidates() {
    let procs = [codex_proc("/a", 1_000)];
    let rollouts = [
        candidate("one", "/a", 900),
        candidate("two", "/a", 900),
        candidate("three", "/a", 800),
    ];
    assert_eq!(join_rollouts(&procs, &rollouts)[0], Some(&rollouts[1]));
    assert_eq!(
        join_rollouts(&procs, &rollouts)[0],
        rollouts.iter().max_by_key(|r| r.mtime_secs)
    );
}

#[test]
fn join_never_joins_processes_sharing_a_cwd() {
    let procs = [codex_proc("/b", 1_000), codex_proc("/b", 1_000)];
    let rollouts = [candidate("only", "/b", 900)];
    assert_eq!(
        join_rollouts(&procs, &rollouts),
        vec![None, None],
        "two live processes sharing a cwd never guess which rollout is whose"
    );
}

#[test]
fn join_rejects_a_rollout_older_than_start_minus_slack() {
    let procs = [codex_proc("/c", 10_000)];
    let rollouts = [candidate("stale", "/c", 10_000 - SLACK_SECS - 1)];
    assert_eq!(join_rollouts(&procs, &rollouts), vec![None]);
}

#[test]
fn join_accepts_a_rollout_exactly_at_the_slack_boundary() {
    let procs = [codex_proc("/d", 10_000)];
    let rollouts = [candidate("boundary", "/d", 10_000 - SLACK_SECS)];
    assert_eq!(join_rollouts(&procs, &rollouts), vec![Some(&rollouts[0])]);
}

#[test]
fn join_with_no_matching_cwd_is_unjoined() {
    let procs = [codex_proc("/e", 1_000)];
    let rollouts = [candidate("elsewhere", "/z", 900)];
    assert_eq!(join_rollouts(&procs, &rollouts), vec![None]);
}

const NO_PROMPT_YET: &str = "codex — no prompt yet";

fn live_proc(pid: u32, cwd: &str, pts: &str, elapsed_secs: u64) -> ProcInfo {
    ProcInfo {
        pid,
        cwd: cwd.to_string(),
        pts: Some(pts.to_string()),
        surface_id: None,
        elapsed_secs,
    }
}

#[test]
fn scan_joins_one_process_to_its_rollout_and_matches_the_surface() {
    let mut proc = live_proc(500, "/work", "/dev/ttys008", 30);
    proc.surface_id = Some("uuid-codex".to_string());
    let rollouts = [candidate("11111111-1111-1111-1111-111111111111", "/work", 9_990)];
    let tail = br#"{"timestamp":"2026-07-10T00:00:00Z","type":"event_msg","payload":{"type":"task_complete"}}"#;
    let surfaces = [Surface {
        id: "uuid-codex".to_string(),
        window_index: 1,
        tab_index: 3,
        name: "codex-stream".to_string(),
        cwd: String::new(),
    }];
    let rows = scan(10_000, &[proc], &rollouts, &[tail.to_vec()], &[], &surfaces);

    assert_eq!(rows.len(), 1, "one codex TUI process, one row");
    let row = &rows[0];
    assert_eq!(row.account.as_deref(), Some("codex"));
    assert_eq!(
        row.pane.as_ref().map(|p| p.tab_index),
        Some(3),
        "a Codex session under cmux matches its surface by exact id, like any other"
    );
    assert_eq!(
        row.stream.as_deref(),
        Some("codex-stream"),
        "STREAM applies to Codex rows too"
    );
    assert_eq!(
        row.pts.as_deref(),
        Some("/dev/ttys008"),
        "with a surface, the highlight write-target guard lets the tty through"
    );
    assert_eq!(row.status, Status::Idle, "task_complete tail");
    assert_eq!(
        row.name, "codex (untitled)",
        "joined rollout with no user_message yet must not read \"no prompt yet\" — the \
         session IS mid-conversation, that label is reserved for no-rollout-joined rows"
    );
    assert_eq!(row.secs_since_append, Some(10));
}

#[test]
fn scan_rollouts_orders_by_mtime_not_filename_so_a_long_running_session_survives_the_cap() {
    let mut mtimes: Vec<Option<u64>> = vec![Some(1_000); MAX_ROLLOUTS];
    mtimes.push(None);
    mtimes.push(Some(4_600));
    let files = newest_files(&mtimes);
    assert_eq!(files.len(), MAX_ROLLOUTS, "cap still enforced");
    assert_eq!(files[0].index, MAX_ROLLOUTS + 1, "the freshest file comes first");
    assert_eq!(files[0].mtime_secs, 4_600);
    assert_eq!(files[1].index, 0, "equally old files keep their order");
    assert_eq!(files[MAX_ROLLOUTS - 1].index, MAX_ROLLOUTS - 2);
}

#[test]
fn scan_placeholder_row_when_no_rollout_is_joined() {
    let proc = live_proc(600, "/work", "/dev/ttys009", 12);
    let rows = scan(10_000, &[proc], &[], &[], &[], &[]);
    assert_eq!(
        rows.len(),
        1,
        "a codex TUI with no rollout still gets a placeholder row"
    );
    assert_eq!(rows[0].name, NO_PROMPT_YET);
    assert_eq!(rows[0].session_id, "codex-pid-600");
    assert_eq!(rows[0].status, Status::Idle, "no rollout joined = Idle");
    assert_eq!(rows[0].pts, None, "outside a surface nothing is highlightable");
}

#[test]
fn processes_that_share_a_directory_are_ambiguous() {
    let infos = [
        live_proc(1, "/same", "/dev/ttys001", 12),
        live_proc(2, "/same", "/dev/ttys002", 12),
        live_proc(3, "/own", "/dev/ttys003", 12),
    ];
    let rollouts = [candidate("s", "/same", 9_999), candidate("t", "/own", 9_999)];
    let branches = [None, None, Some("main".to_string())];
    let rows = scan(10_000, &infos, &rollouts, &[], &branches, &[]);
    assert_eq!(rows[0].name, "codex — session ambiguous");
    assert_eq!(rows[1].name, "codex — session ambiguous");
    assert_eq!(rows[2].session_id, "t");
    assert_eq!(rows[2].branch.as_deref(), Some("main"));
    assert_eq!(tails_to_read(10_000, &infos, &rollouts), vec![None, None, Some(1)]);
}

#[test]
fn a_rollout_from_before_the_process_is_not_its_own() {
    let infos = [live_proc(1, "/a", "/dev/ttys001", 100)];
    let old = [candidate("s", "/a", 9_299)];
    assert_eq!(scan(10_000, &infos, &old, &[], &[], &[])[0].name, NO_PROMPT_YET);
    let young = [candidate("s", "/a", 9_300)];
    assert_eq!(scan(10_000, &infos, &young, &[], &[], &[])[0].session_id, "s");
}

#[test]
fn a_rollout_written_in_the_future_has_no_age() {
    let info = live_proc(1, "/a", "/dev/ttys001", 100);
    let facts = RolloutFacts {
        status: Status::Working,
        tokens: Some(7),
        ctx_pct: Some(1),
        name: Some("prompt".to_string()),
    };
    let row = build_joined_row(10, &info, &candidate("s", "/a", 11), facts, None, &[]);
    assert_eq!(row.secs_since_append, None);
    assert_eq!(row.name, "prompt");
    assert_eq!(row.context_tokens, Some(7));
    assert_eq!(row.ctx_pct, Some(1));
    assert_eq!(row.status, Status::Working);
}

#[test]
fn candidates_are_the_files_that_name_a_session() {
    let files = newest_files(&[Some(5), Some(9), None, Some(7)]);
    let meta = |id: &str| Some(SessionMeta { id: id.to_string(), cwd: "/a".to_string() });
    let (found, held) = candidates(&files, &[meta("s"), None, meta("s")]);
    assert_eq!(found, vec![candidate("s", "/a", 9), candidate("s", "/a", 5)]);
    assert_eq!(held, vec![1, 0]);
    assert_eq!(tail_source(&found, "s"), Some(1), "of one session the last candidate");
    assert_eq!(tail_source(&found, "t"), None);
}

#[test]
fn rollout_file_names() {
    assert!(is_rollout("rollout-2026-07-10T00-00-00-x.jsonl"));
    assert!(is_rollout("rollout-.jsonl"));
    assert!(!is_rollout("rollout-x.json"));
    assert!(!is_rollout("my-rollout-x.jsonl"));
    assert!(!is_rollout(".jsonl"));
}

#[test]
fn the_tail_is_the_last_quarter_mebibyte() {
    assert_eq!(tail_offset(0), 0);
    assert_eq!(tail_offset(256 * 1024), 0);
    assert_eq!(tail_offset(256 * 1024 + 1), 1);
}
