use fleetops::cmux::{
    focus_spec, focused_id, focused_spec, list_spec, parse_list, strip_status_glyph, SurfaceCache,
};
use fleetops::decode::lossy_lines_of;
use fleetops::error::AppError;

const FIXTURE: &[u8] = b"277E65DB-005E-4B3A-B4D3-A290839E4F3C\t1\t1\tgtm-studio\t/Users/user/Desktop/groupon-gtm-studio
5C1D0F6A-93B7-4C57-9B45-0A1C7E2D3F41\t1\t2\temail-signal-capture\t/Users/user/Desktop/email-signal-capture
8E2B4D71-1F0C-4A6E-8D2F-6B7A9C0E1D52\t1\t3\tskills\t/Users/user/Desktop
02EC2459-2B77-4FA8-A51C-452E80CA19F8\t1\t4\tfleetops\t/Users/user/tui/fleetops
9F3C5E82-2A1D-4B7F-9E30-7C8BAD1F2E63\t1\t5\trules\t/Users/user/Desktop
A04D6F93-3B2E-4C80-8F41-8D9CBE203F74\t1\t6\tdocs\t/Users/user/docs
B15E70A4-4C3F-4D91-9052-9EADCF314085\t1\t7\tscratch\t/private/tmp
";

#[test]
fn fixture_parses_to_surfaces() {
    let surfaces = parse_list(FIXTURE);
    assert_eq!(surfaces.len(), 7, "one window, seven tabs");
    assert_eq!(surfaces[0].id, "277E65DB-005E-4B3A-B4D3-A290839E4F3C");
    assert_eq!(surfaces[0].window_index, 1);
    assert_eq!(surfaces[0].tab_index, 1);
    assert_eq!(surfaces[0].name, "gtm-studio");
    assert_eq!(surfaces[0].cwd, "/Users/user/Desktop/groupon-gtm-studio");
    assert_eq!(surfaces[3].tab_index, 4);
}

#[test]
fn fixture_carries_the_workstream_names() {
    let surfaces = parse_list(FIXTURE);
    let names: Vec<&str> = surfaces.iter().map(|s| s.name.as_str()).collect();
    assert!(names.contains(&"gtm-studio"));
    assert!(names.contains(&"email-signal-capture"));
    let desktop = names.iter().filter(|n| **n == "skills" || **n == "rules").count();
    assert_eq!(desktop, 2);
    let same_cwd = surfaces.iter().filter(|s| s.cwd == "/Users/user/Desktop").count();
    assert_eq!(same_cwd, 2, "two workstreams, one cwd");
}

#[test]
fn strip_status_glyph_table() {
    assert_eq!(
        strip_status_glyph("✳ Check current global skills"),
        "Check current global skills"
    );
    assert_eq!(
        strip_status_glyph("⠐ Review project rules and guidelines"),
        "Review project rules and guidelines"
    );
    assert_eq!(strip_status_glyph("⣿ working"), "working");
    assert_eq!(strip_status_glyph("gtm-studio"), "gtm-studio");
    assert_eq!(strip_status_glyph("  padded  "), "padded");
    assert_eq!(strip_status_glyph(""), "");
    assert_eq!(strip_status_glyph("rules"), "rules");
    assert_eq!(strip_status_glyph("🚀 launch"), "🚀 launch");
}

#[test]
fn surface_ids_are_unique_so_the_match_can_be_exact() {
    let surfaces = parse_list(FIXTURE);
    let mut ids: Vec<&str> = surfaces.iter().map(|s| s.id.as_str()).collect();
    ids.sort_unstable();
    let before = ids.len();
    ids.dedup();
    assert_eq!(before, ids.len(), "surface ids must be unique");
}

#[test]
fn malformed_rows_are_skipped_not_fatal() {
    let input = b"good-id\t1\t2\tstream-a\t/tmp\n\
                  \n\
                  missing-fields\n\
                  bad-index\tX\t2\tstream-b\t/tmp\n\
                  \t1\t1\tstream-c\t/tmp\n\
                  other-id\t2\t3\tstream-d\t/var\n";
    let surfaces = parse_list(input);
    assert_eq!(surfaces.len(), 2, "only the two well-formed rows survive");
    assert_eq!(surfaces[0].id, "good-id");
    assert_eq!(surfaces[1].id, "other-id");
    assert_eq!(surfaces[1].window_index, 2);
}

#[test]
fn garbage_is_empty_not_a_panic() {
    assert!(parse_list(b"").is_empty());
    assert!(parse_list(b"total garbage").is_empty());
    assert!(parse_list(&[0xff, 0xfe]).is_empty());
}

#[test]
fn bytes_that_are_not_text_are_replaced() {
    let surfaces = parse_list(b"id-1\t1\t1\tna\xffme\t/tmp\n");
    assert_eq!(surfaces[0].name, "na\u{fffd}me");
}

#[test]
fn a_row_without_name_and_directory_has_empty_ones() {
    let surfaces = parse_list(b"id-1\t1\t1\n");
    assert_eq!(surfaces.len(), 1);
    assert_eq!(surfaces[0].name, "");
    assert_eq!(surfaces[0].cwd, "");
}

#[test]
fn focus_sends_exactly_one_call_carrying_the_id_as_argv() {
    let spec = focus_spec("uuid-target");
    assert_eq!(spec.program, "osascript");
    assert_eq!(spec.args[2], "uuid-target");
}

#[test]
fn focused_surface_id_trims_and_treats_empty_as_none() {
    let answer = b"02EC2459-2B77-4FA8-A51C-452E80CA19F8\n".to_vec();
    assert_eq!(
        focused_id(Ok(answer)).as_deref(),
        Some("02EC2459-2B77-4FA8-A51C-452E80CA19F8"),
        "the trailing newline osascript emits must not become part of the id"
    );
    assert_eq!(focused_id(Ok(b"\n".to_vec())), None);
}

#[test]
fn focused_surface_id_swallows_a_dead_cmux() {
    let dead = AppError::Subprocess {
        program: "osascript".to_string(),
        message: "exit 1".to_string(),
    };
    assert_eq!(focused_id(Err(dead)), None);
}

#[test]
fn cache_keeps_the_last_good_list_when_a_sweep_fails() {
    let mut cache = SurfaceCache::default();
    let good = parse_list(FIXTURE);
    let (rows, err) = cache.fold(Ok(good.clone()));
    assert_eq!(rows.len(), 7);
    assert!(err.is_none());

    let (rows, err) = cache.fold(Err(AppError::Timeout {
        program: "osascript".to_string(),
        seconds: 5,
    }));
    assert_eq!(rows, good, "stale beats blank — the PANE column survives");
    assert!(err.is_some(), "but the footer must say the lane is degraded");
    assert_eq!(err.as_deref(), Some("osascript: timed out after 5s"));
}

#[test]
fn a_cwd_containing_spaces_survives() {
    let surfaces = parse_list(b"id-1\t1\t1\tmy stream\t/Users/user/My Projects/a b\n");
    assert_eq!(surfaces[0].cwd, "/Users/user/My Projects/a b");
    assert_eq!(
        surfaces[0].name, "my stream",
        "a workstream name may contain spaces too"
    );
}

#[test]
fn specs_are_explicit_argv_never_a_shell_string() {
    let list = list_spec();
    assert_eq!(list.program, "osascript");
    assert_eq!(list.args[0], "-e");
    assert!(list.args[1].contains("tell application \"cmux\""));
    assert!(
        list.args[1].starts_with("set d to character id 9"),
        "the delimiter must bind OUTSIDE the tell block: cmux's `tab` CLASS shadows \
         AppleScript's tab constant and would emit the literal text \"tab\""
    );
}

#[test]
fn the_focused_call_asks_for_the_front_window() {
    let spec = focused_spec();
    assert_eq!(spec.program, "osascript");
    assert_eq!(spec.args.len(), 2);
    assert!(spec.args[1].contains("selected tab of (front window)"));
}

#[test]
fn focus_passes_the_id_as_argv_so_it_can_never_be_script() {
    let hostile = r#"" & (do shell script "echo pwned") & ""#;
    let spec = focus_spec(hostile);
    assert_eq!(spec.args.len(), 3, "-e, script, id");
    assert_eq!(spec.args[2], hostile, "the id rides as its own argv element");
    assert!(
        !spec.args[1].contains("pwned"),
        "the id must never be interpolated into the script body"
    );
    assert!(spec.args[1].contains("item 1 of argv"));
}

#[test]
fn rows_are_read_independently_whatever_bytes_they_hold() {
    let fronts: [&[u8]; 5] = [
        b"",
        b"id-1\t1\t1\tna\xffme\t/tmp\n",
        b"bad\xe2\x82\nid-2\t1\t2\tx\t/a\r\n",
        b"\n\n",
        b"id-3\t1\t3\xf0\n",
    ];
    let backs: [&[u8]; 4] = [b"", b"id-4\t2\t1\ty\t/b", b"\xbf\tgarbage\nid-5\t2\t2\n", FIXTURE];
    for a in fronts {
        for b in backs {
            let mut want = parse_list(a);
            want.extend(parse_list(b));
            assert_eq!(parse_list(&[a, b].concat()), want, "{a:?} {b:?}");
        }
    }
}

#[test]
fn bytes_decode_to_the_lines_of_the_whole_text() {
    let samples: [&[u8]; 6] = [
        b"a\tb\r\nc",
        b"\xe2\x82\n\xac\n",
        b"\xf0\x9f\x9a\x80 launch\r\r\n\r",
        b"\xff\r\n\xfe",
        b"",
        b"\xe2\x82\r\nx\xed\xa0\x80\n",
    ];
    for bytes in samples {
        let whole = String::from_utf8_lossy(bytes).into_owned();
        let lines: Vec<String> = lossy_lines_of(bytes).into_iter().map(String::from_iter).collect();
        assert_eq!(lines, whole.lines().collect::<Vec<_>>(), "{bytes:?}");
    }
}
