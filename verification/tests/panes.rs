use fleetops::error::AppError;
use fleetops::panes::{
    activate_pane_args, activate_pane_spec, activate_tab_args, activate_tab_spec, classify_title,
    list_args, list_spec, pane_rows, resolve_wezterm, short_cwd, unreadable_list, PaneCache,
    PaneRow, PaneStatus, RawPane, WEZTERM, WEZTERM_ABSOLUTE,
};

fn raw(pane_id: u64, tab_id: u64, window_id: u64, title: &str, cwd: &str) -> RawPane {
    RawPane {
        pane_id,
        tab_id,
        window_id,
        title: title.to_string(),
        cwd: cwd.to_string(),
        is_active: false,
    }
}

#[test]
fn agent_panes_only_sorted_by_pane_id_with_every_tab_numbered() {
    let listed = [
        raw(9, 1, 0, "wslhost.exe", ""),
        raw(4, 3, 0, "⠂ FleetOps board", "file://wsl.localhost/Ubuntu/tui/fleetops/"),
        raw(3, 3, 0, "", ""),
        raw(2, 8, 1, "✳ Other window", "file:///C:/x"),
        raw(7, 5, 0, "✳ third tab", ""),
        raw(1, 1, 0, "⠐ first tab", ""),
    ];
    let rows = pane_rows(&listed);
    let got: Vec<(u64, u64, &str)> =
        rows.iter().map(|r| (r.pane_id, r.tab_index, r.name.as_str())).collect();
    assert_eq!(
        got,
        vec![
            (1, 1, "first tab"),
            (2, 1, "Other window"),
            (4, 2, "FleetOps board"),
            (7, 3, "third tab")
        ]
    );
    assert_eq!(rows[2].status, PaneStatus::Working);
    assert_eq!(rows[2].cwd, "/tui/fleetops");
    assert_eq!(rows[2].tab_id, 3);
    assert_eq!(rows[1].cwd, "C:/x");
}

#[test]
fn classify_title_table() {
    let cases: &[(&str, Option<(PaneStatus, &str)>)] = &[
        ("⠂ Fix the bug", Some((PaneStatus::Working, "Fix the bug"))),
        ("⠐ Resume", Some((PaneStatus::Working, "Resume"))),
        ("⣿dense", Some((PaneStatus::Working, "dense"))),
        ("✳ Review skills", Some((PaneStatus::Idle, "Review skills"))),
        ("✳", Some((PaneStatus::Idle, ""))),
        ("wslhost.exe", None),
        ("", None),
        ("→ arrow title", None),
        ("plain shell", None),
    ];
    for (title, want) in cases {
        let got = classify_title(title);
        let want = want.map(|(s, n)| (s, n.to_string()));
        assert_eq!(got, want, "title {title:?}");
    }
}

#[test]
fn short_cwd_table() {
    let cases = [
        ("file://wsl.localhost/Ubuntu/tui/fleetops/", "/tui/fleetops"),
        ("file://wsl.localhost/Ubuntu/", "/"),
        ("file:///C:/Users/user/", "C:/Users/user"),
        ("", ""),
        ("weird", "weird"),
    ];
    for (input, want) in cases {
        assert_eq!(short_cwd(input), want, "cwd {input:?}");
    }
}

#[test]
fn a_directory_that_is_no_url_is_shown_verbatim() {
    let cases = [
        ("/srv/app/", "/srv/app/"),
        ("/srv/app", "/srv/app"),
        ("/", "/"),
        ("///", "///"),
        ("http://host/a/", "http://host/a/"),
        ("file://wsl.localhost/Ubuntu/a//", "/a"),
        ("file:///home/a//", "home/a"),
    ];
    for (input, want) in cases {
        assert_eq!(short_cwd(input), want, "cwd {input:?}");
    }
    assert_eq!(pane_rows(&[raw(1, 1, 0, "✳ x", "/srv/app/")])[0].cwd, "/srv/app/");
}

#[test]
fn a_list_that_cannot_be_read_is_a_parse_error() {
    let e = unreadable_list("expected value at line 1 column 1");
    assert_eq!(
        e,
        AppError::Parse("wezterm list: expected value at line 1 column 1".to_string())
    );
}

#[test]
fn argv_builders() {
    assert_eq!(list_args(), ["cli", "list", "--format", "json"]);
    assert_eq!(
        activate_pane_args(42),
        ["cli", "activate-pane", "--pane-id", "42"]
    );
    assert_eq!(
        activate_tab_args(7),
        ["cli", "activate-tab", "--tab-id", "7"]
    );
}

#[test]
fn bounded_commands_run_the_resolved_program() {
    for spec in [list_spec("w"), activate_pane_spec("w", 1), activate_tab_spec("w", 1)] {
        assert_eq!(spec.program, "w");
        assert_eq!(spec.timeout_secs, 5);
        assert!(spec.env.is_empty());
    }
    assert_eq!(activate_pane_spec("w", u64::MAX).args[3], "18446744073709551615");
}

#[test]
fn resolve_wezterm_prefers_path_then_absolute_fallback() {
    assert_eq!(resolve_wezterm(false, true, WEZTERM_ABSOLUTE), WEZTERM_ABSOLUTE);
    assert_eq!(resolve_wezterm(true, true, WEZTERM_ABSOLUTE), WEZTERM);
    assert_eq!(resolve_wezterm(false, false, WEZTERM_ABSOLUTE), WEZTERM);
    assert_eq!(resolve_wezterm(true, false, WEZTERM_ABSOLUTE), WEZTERM);
}

#[test]
fn pane_cache_keeps_last_good_list_on_lane_error() {
    let mut cache = PaneCache::default();
    let rows = vec![PaneRow {
        pane_id: 1,
        tab_id: 1,
        tab_index: 1,
        status: PaneStatus::Working,
        name: "x".to_string(),
        cwd: "/x".to_string(),
        is_active: false,
    }];

    let (got, err) = cache.fold(Ok(rows.clone()));
    assert_eq!(got, rows);
    assert_eq!(err, None);

    let (got, err) = cache.fold(Err(AppError::Timeout {
        program: WEZTERM.to_string(),
        seconds: 5,
    }));
    assert_eq!(got, rows, "stale pane list survives a lane error");
    assert!(err.is_some_and(|e| e.contains("timed out")));

    let (got, err) = cache.fold(Ok(Vec::new()));
    assert!(got.is_empty());
    assert_eq!(err, None);
}
