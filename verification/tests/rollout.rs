use fleetops::fold::{Status, STALL_AFTER_SECS};
use fleetops::rollout::{fold_rollout_lines, fold_rollout_tail, RolloutLine};

fn event_line(event_type: &str) -> String {
    format!(
        r#"{{"timestamp":"2026-07-10T00:00:00Z","type":"event_msg","payload":{{"type":"{event_type}"}}}}"#
    )
}

fn response_item_line(item_type: &str) -> String {
    format!(
        r#"{{"timestamp":"2026-07-10T00:00:00Z","type":"response_item","payload":{{"type":"{item_type}","role":"assistant"}}}}"#
    )
}

fn token_count_line(total: u64, window: u64) -> String {
    format!(
        r#"{{"timestamp":"2026-07-10T00:00:00Z","type":"event_msg","payload":{{"type":"token_count","info":{{"total_token_usage":{{"input_tokens":1,"cached_input_tokens":2,"output_tokens":3,"reasoning_output_tokens":4,"total_tokens":{total}}},"model_context_window":{window}}},"rate_limits":null}}}}"#
    )
}

fn user_message_line(text: &str) -> String {
    format!(
        r#"{{"timestamp":"2026-07-10T00:00:00Z","type":"event_msg","payload":{{"type":"user_message","message":"{text}","images":[],"local_images":[]}}}}"#
    )
}

#[test]
fn fold_last_event_task_complete_is_idle() {
    let tail = [event_line("task_started"), event_line("task_complete")].join("\n");
    assert_eq!(fold_rollout_tail(tail.as_bytes(), Some(5)).status, Status::Idle);
}

#[test]
fn fold_task_started_after_complete_within_stall_window_is_working() {
    let tail = [event_line("task_complete"), event_line("task_started")].join("\n");
    assert_eq!(
        fold_rollout_tail(tail.as_bytes(), Some(10)).status,
        Status::Working,
        "fresh activity after the last task_complete"
    );
}

#[test]
fn fold_response_item_after_complete_is_activity_too() {
    let tail = [event_line("task_complete"), response_item_line("message")].join("\n");
    assert_eq!(
        fold_rollout_tail(tail.as_bytes(), Some(10)).status,
        Status::Working,
        "model is streaming — the turn is live even without a task_started tail"
    );
}

#[test]
fn fold_task_started_after_complete_past_stall_window_is_stalled() {
    let tail = [event_line("task_complete"), event_line("task_started")].join("\n");
    assert_eq!(
        fold_rollout_tail(tail.as_bytes(), Some(STALL_AFTER_SECS + 1)).status,
        Status::Stalled,
        "301s of silence after task_started"
    );
}

#[test]
fn fold_approval_request_family_with_no_later_complete_is_needs_answer() {
    for kind in [
        "exec_approval_request",
        "apply_patch_approval_request",
        "elicitation_request",
        "request_user_input",
    ] {
        let tail = [event_line("task_started"), event_line(kind)].join("\n");
        assert_eq!(
            fold_rollout_tail(tail.as_bytes(), Some(5)).status,
            Status::NeedsAnswer,
            "event kind {kind}"
        );
    }
}

#[test]
fn fold_garbage_lines_are_skipped_not_fatal() {
    let tail = ["not json at all".to_string(), event_line("task_complete")].join("\n");
    assert_eq!(fold_rollout_tail(tail.as_bytes(), Some(5)).status, Status::Idle);
}

#[test]
fn fold_token_count_yields_tokens_and_ctx_pct_from_model_context_window() {
    let tail = token_count_line(120_000, 200_000);
    let facts = fold_rollout_tail(tail.as_bytes(), Some(5));
    assert_eq!(facts.tokens, Some(120_000));
    assert_eq!(facts.ctx_pct, Some(60), "120k of a 200k codex window = 60%");
}

#[test]
fn fold_last_user_message_becomes_the_name_truncated_to_60() {
    let long = "x".repeat(80);
    let tail = user_message_line(&long);
    let facts = fold_rollout_tail(tail.as_bytes(), Some(5));
    assert_eq!(
        facts.name.as_deref().map(str::len),
        Some(60),
        "truncated to 60 chars"
    );
}

#[test]
fn fold_last_user_message_uses_only_the_first_line() {
    let tail = user_message_line("first line\\nsecond line should never appear");
    let facts = fold_rollout_tail(tail.as_bytes(), Some(5));
    assert_eq!(facts.name.as_deref(), Some("first line"));
}

#[test]
fn an_empty_tail_is_idle_and_says_nothing() {
    let facts = fold_rollout_tail(b"", None);
    assert_eq!(facts.status, Status::Idle);
    assert_eq!(facts.tokens, None);
    assert_eq!(facts.ctx_pct, None);
    assert_eq!(facts.name, None);
}

#[test]
fn garbage_between_lines_makes_no_difference() {
    let lines = [
        event_line("task_started"),
        user_message_line("ünïcode prompt"),
        token_count_line(50, 100),
    ];
    let clean = fold_rollout_tail(lines.join("\n").as_bytes(), Some(1));
    let noise = ["{", "[]", "{\"type\":7}", "{\"type\":\"event_msg\"}", "", "{\"type\":\"turn\"}"];
    let mut mixed = Vec::new();
    for line in &lines {
        mixed.extend(noise.map(str::to_string));
        mixed.push(line.clone());
    }
    mixed.extend(noise.map(str::to_string));
    assert_eq!(fold_rollout_tail(mixed.join("\n").as_bytes(), Some(1)), clean);
    assert_eq!(clean.name.as_deref(), Some("ünïcode prompt"));
    assert_eq!(clean.ctx_pct, Some(50));
    assert_eq!(clean.status, Status::Working);
}

#[test]
fn the_last_prompt_and_the_last_count_win() {
    let tail = [
        user_message_line("first"),
        token_count_line(10, 100),
        user_message_line("second"),
        token_count_line(30, 100),
        event_line("task_complete"),
    ]
    .join("\n");
    let facts = fold_rollout_tail(tail.as_bytes(), Some(9_999));
    assert_eq!(facts.name.as_deref(), Some("second"));
    assert_eq!(facts.tokens, Some(30));
    assert_eq!(facts.ctx_pct, Some(30));
    assert_eq!(facts.status, Status::Idle);
}

fn counted(total_tokens: Option<u64>, context_window: Option<u64>) -> RolloutLine {
    RolloutLine {
        envelope: Some("event_msg".to_string()),
        kind: Some("token_count".to_string()),
        message: None,
        total_tokens,
        context_window,
    }
}

#[test]
fn context_use_needs_a_window_and_never_overflows() {
    let pct = |total, window| fold_rollout_lines(&[counted(total, window)], None).ctx_pct;
    assert_eq!(pct(Some(1), Some(0)), None);
    assert_eq!(pct(Some(1), None), None);
    assert_eq!(pct(None, Some(100)), None);
    assert_eq!(pct(Some(300), Some(100)), Some(255));
    assert_eq!(pct(Some(u64::MAX), Some(u64::MAX)), Some(1));
    assert_eq!(pct(Some(254), Some(100)), Some(254));
}

#[test]
fn an_empty_prompt_gives_no_name() {
    let prompt = |text: &str| RolloutLine {
        envelope: Some("event_msg".to_string()),
        kind: Some("user_message".to_string()),
        message: Some(text.to_string()),
        total_tokens: None,
        context_window: None,
    };
    assert_eq!(fold_rollout_lines(&[prompt("a"), prompt("")], None).name, None);
    assert_eq!(
        fold_rollout_lines(&[prompt("\r\nx")], None).name.as_deref(),
        Some("")
    );
    let wide = "é".repeat(61);
    assert_eq!(
        fold_rollout_lines(&[prompt(&wide)], None).name,
        Some("é".repeat(60)),
        "characters are counted, not bytes"
    );
}
