use fleetops::discovery::NativeStatus;
use fleetops::error::AppError;
use fleetops::fold::{sort_key, status, Status};
use fleetops::number::{decimal_text, parse_u32};
use fleetops::telemetry::ctx_used_pct;
use fleetops::text::{
    ascii_white, chars_of, lines_of, same_text, split_of, string_of, text_before, trim_of, white,
    words_of,
};

fn every_char() -> impl Iterator<Item = char> {
    (0..=0x10ffff_u32).filter_map(char::from_u32)
}

#[test]
fn white_space_is_what_char_says_it_is() {
    assert!(every_char().all(|c| white(c) == c.is_whitespace()));
    assert!(every_char().all(|c| ascii_white(c) == c.is_ascii_whitespace()));
}

fn strings(pieces: Vec<&[char]>) -> Vec<String> {
    pieces.into_iter().map(string_of).collect()
}

#[test]
fn text_functions_agree_with_those_of_str() {
    let samples = [
        "",
        "\n",
        "a",
        " a ",
        "a\nb",
        "a\r\nb\r\n",
        "\ra\n\n\nb\r",
        "  x\ty  z\u{a0}w ",
        "\u{3000}ünï\u{2028}cödé\u{85}",
        "a,b,,c,",
        ",",
    ];
    for s in samples {
        let chars = chars_of(s);
        assert_eq!(strings(lines_of(&chars)), s.lines().collect::<Vec<_>>(), "{s:?}");
        assert_eq!(strings(split_of(&chars, ',')), s.split(',').collect::<Vec<_>>(), "{s:?}");
        assert_eq!(
            strings(words_of(&chars)),
            s.split_ascii_whitespace().collect::<Vec<_>>(),
            "{s:?}"
        );
        assert_eq!(string_of(trim_of(&chars)), s.trim(), "{s:?}");
        for t in samples {
            assert_eq!(text_before(s, t), s <= t, "{s:?} {t:?}");
            assert_eq!(same_text(s, t), s == t, "{s:?} {t:?}");
        }
    }
}

#[test]
fn numbers_read_and_write_as_std_does() {
    for s in ["0", "7", "+7", "4294967295", "4294967296", "007", "", "+", "-1", " 1", "1a", "++1"] {
        assert_eq!(parse_u32(&chars_of(s)), s.parse::<u32>().ok(), "{s:?}");
    }
    for n in [0, 9, 10, 4_294_967_295, u64::MAX] {
        assert_eq!(decimal_text(n), n.to_string());
    }
    assert_eq!(parse_u32(&chars_of(&decimal_text(u64::from(u32::MAX)))), Some(u32::MAX));
}

#[test]
fn status_fold_table() {
    let other = NativeStatus::Other("odd".to_string());
    let cases = [
        (NativeStatus::Busy, false, Some(300), Status::Working),
        (NativeStatus::Busy, false, Some(301), Status::Stalled),
        (NativeStatus::Busy, false, None, Status::Working),
        (NativeStatus::Busy, true, Some(301), Status::NeedsAnswer),
        (NativeStatus::Idle, false, Some(301), Status::Idle),
        (NativeStatus::Shell, false, None, Status::Shell),
        (NativeStatus::Waiting, false, None, Status::Waiting),
        (other, true, None, Status::Unknown),
    ];
    for (native, pending, age, want) in cases {
        assert_eq!(status(&native, pending, age), want, "{native:?} {pending} {age:?}");
    }
}

#[test]
fn statuses_are_ordered_by_attention_and_named() {
    let order = [
        (Status::NeedsAnswer, "NeedsAnswer"),
        (Status::Waiting, "Waiting"),
        (Status::Stalled, "Stalled"),
        (Status::Unknown, "Unknown"),
        (Status::Working, "Working"),
        (Status::Idle, "Idle"),
        (Status::Shell, "Shell"),
    ];
    for pair in order.windows(2) {
        assert!(sort_key(pair[0].0) < sort_key(pair[1].0));
    }
    for (s, name) in order {
        assert_eq!(s.name(), name);
        assert_eq!(s.name(), format!("{s:?}"));
    }
}

#[test]
fn context_use_is_measured_against_the_window_in_use() {
    assert_eq!(ctx_used_pct(0), 0);
    assert_eq!(ctx_used_pct(120_000), 60);
    assert_eq!(ctx_used_pct(200_000), 100);
    assert_eq!(ctx_used_pct(200_001), 20);
    assert_eq!(ctx_used_pct(u64::MAX), u64::MAX / 1_000_000);
}

#[test]
fn errors_read_in_one_line() {
    let subprocess =
        AppError::Subprocess { program: "ps".to_string(), message: "exit 1".to_string() };
    assert_eq!(subprocess.message(), "ps: exit 1");
    let timeout = AppError::Timeout { program: "lsof".to_string(), seconds: 5 };
    assert_eq!(timeout.message(), "lsof: timed out after 5s");
    assert_eq!(AppError::Parse("x".to_string()).message(), "parse: x");
    assert_eq!(AppError::Io("broken pipe".to_string()).message(), "io: broken pipe");
}
