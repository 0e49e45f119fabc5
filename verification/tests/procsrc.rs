use fleetops::procsrc::{normalize_lstart, parse_table, parse_table_text, table_spec};

const FIXTURE: &[u8] = b"    1 ??       Thu Jul 16 18:23:29 2026
  337 ??       Thu Jul 16 18:23:31 2026
12696 ttys000  Thu Jul 16 19:10:07 2026
13805 ttys003  Thu Jul 16 19:24:55 2026
";

#[test]
fn spec_is_explicit_argv_with_utc() {
    let spec = table_spec();
    assert_eq!(spec.program, "ps");
    assert_eq!(spec.args, vec!["-Ao", "pid=,tty=,lstart="]);
    assert!(
        spec.env.contains(&("TZ".to_string(), "UTC".to_string())),
        "TZ=UTC is load-bearing: procStart is UTC, ps formats local"
    );
    assert!(
        !spec.args.iter().any(|a| a.contains(';') || a.contains('|')),
        "explicit argv, never a shell string"
    );
    assert_eq!(spec.timeout_secs, 5);
}

#[test]
fn procsrc_fixture_parses() {
    let table = parse_table(FIXTURE);
    assert_eq!(table.len(), 4, "2 no-tty + 2 session rows");

    let session = table.get(&12696).expect("session pid present");
    assert_eq!(session.lstart, "Thu Jul 16 19:10:07 2026");
    assert_eq!(session.tty.as_deref(), Some("/dev/ttys000"));

    let launchd = table.get(&1).expect("pid 1 present");
    assert_eq!(launchd.tty, None, "?? means no controlling terminal");
    assert_eq!(launchd.lstart, "Thu Jul 16 18:23:29 2026");
}

#[test]
fn lstart_matches_the_session_files_proc_start_verbatim() {
    let table = parse_table(FIXTURE);
    let observed = &table.get(&12696).expect("pid present").lstart;
    assert_eq!(*observed, normalize_lstart("Thu Jul 16 19:10:07 2026"));
}

#[test]
fn normalize_collapses_the_padded_day() {
    assert_eq!(
        normalize_lstart("Thu Jul  6 19:10:07 2026"),
        normalize_lstart("Thu Jul 6 19:10:07 2026")
    );
    assert_eq!(
        normalize_lstart("  12696 \t x  "),
        "12696 x",
        "leading/trailing/tab runs collapse"
    );
}

#[test]
fn normalizing_twice_is_normalizing_once() {
    let once = normalize_lstart(" Thu  Jul 6\t19:10:07 2026 ");
    assert_eq!(normalize_lstart(&once), once);
    assert_eq!(once, "Thu Jul 6 19:10:07 2026");
}

#[test]
fn malformed_lines_are_skipped_not_fatal() {
    let input = b"12 ttys001 Thu Jul 16 19:10:07 2026\n\
                  not-a-pid ttys002 Thu Jul 16 19:10:07 2026\n\
                  \n\
                  99 ttys003\n\
                  13 ttys004 Thu Jul 16 19:11:00 2026\n";
    let table = parse_table(input);
    assert_eq!(table.len(), 2, "two good rows survive");
    assert!(table.contains_key(&12) && table.contains_key(&13));
    assert!(
        !table.contains_key(&99),
        "a row with no lstart is unusable for liveness, not a live process"
    );
}

#[test]
fn garbage_is_an_empty_table_not_a_panic() {
    assert!(parse_table(b"").is_empty());
    assert!(parse_table(b"total garbage here").is_empty());
    assert!(parse_table(&[0xff, 0xfe, 0x00]).is_empty());
}

#[test]
fn the_later_of_two_lines_with_one_pid_holds() {
    let table = parse_table_text("7 ttys001 Mon\n7 - Tue\r\n");
    let facts = table.get(&7).expect("pid present");
    assert_eq!(facts.lstart, "Tue");
    assert_eq!(facts.tty, None);
    assert_eq!(facts.surface_id, None);
    assert_eq!(facts.account, None);
}

#[test]
fn bytes_that_are_not_text_cost_their_line_alone() {
    let table = parse_table(b"7 ttys001 Mon\xff\n8 ttys002 Tue\n");
    assert_eq!(table.get(&7).expect("present").lstart, "Mon\u{fffd}");
    assert_eq!(table.get(&8).expect("present").lstart, "Tue");
}
