//! Codex rollouts: status, tokens and name of a session, folded from the tail of its rollout.
//!
//! Lines count in file order, so the last word wins: a completed task after an approval request
//! resolves it. Garbage and unknown lines are skipped, never fatal.

use vstd::prelude::*;
use vstd::slice::slice_subrange;
use crate::decode::{byte_views, find_byte, whole_lines};
use crate::fold::{silent, Status, STALL_AFTER_SECS};
use crate::json::{json_number_at, json_text_at, number_at, text_at};
use crate::order::views_of;
use crate::telemetry::{a_percentage_is_rounded_down, clamped_pct, percent, percent_of};
use crate::text::{
    chars_of, lemma_position, lemma_position_is, lines, lines_of, occurs, opt_text, position,
    same_text, split, splitting_parts_at_the_first, string_of,
};

verus! {

/// How many characters of a prompt's first line name the session.
pub const NAME_CHARS: usize = 60;

/// What one rollout line says: the fields the fold reads, each where it is present and has the
/// expected type.
#[derive(Debug, Clone, PartialEq, Eq)]
pub struct RolloutLine {
    /// The envelope's `type`.
    pub envelope: Option<String>,
    /// `payload.type`, the kind of an event.
    pub kind: Option<String>,
    /// `payload.message`, the prompt text.
    pub message: Option<String>,
    /// `payload.info.total_token_usage.total_tokens`.
    pub total_tokens: Option<u64>,
    /// `payload.info.model_context_window`.
    pub context_window: Option<u64>,
}

/// What a `RolloutLine` stands for.
pub struct RolloutLineModel {
    pub envelope: Option<Seq<char>>,
    pub kind: Option<Seq<char>>,
    pub message: Option<Seq<char>>,
    pub total_tokens: Option<u64>,
    pub context_window: Option<u64>,
}

impl View for RolloutLine {
    type V = RolloutLineModel;

    open spec fn view(&self) -> RolloutLineModel {
        RolloutLineModel {
            envelope: opt_text(self.envelope),
            kind: opt_text(self.kind),
            message: opt_text(self.message),
            total_tokens: self.total_tokens,
            context_window: self.context_window,
        }
    }
}

/// The last thing a rollout said about its turn.
#[derive(Debug, Clone, Copy, PartialEq, Eq, Structural)]
pub enum Signal {
    /// The turn is complete.
    Complete,
    /// The turn is running.
    Activity,
    /// The turn waits for the user.
    NeedsAnswer,
}

/// What the rollout lines seen so far add up to.
#[derive(Debug, Clone, PartialEq, Eq)]
pub struct RolloutState {
    pub signal: Option<Signal>,
    pub tokens: Option<u64>,
    pub ctx_pct: Option<u8>,
    pub name: Option<String>,
}

/// What a `RolloutState` stands for.
pub struct RolloutStateModel {
    pub signal: Option<Signal>,
    pub tokens: Option<u64>,
    pub ctx_pct: Option<u8>,
    pub name: Option<Seq<char>>,
}

impl View for RolloutState {
    type V = RolloutStateModel;

    open spec fn view(&self) -> RolloutStateModel {
        RolloutStateModel {
            signal: self.signal,
            tokens: self.tokens,
            ctx_pct: self.ctx_pct,
            name: opt_text(self.name),
        }
    }
}

/// Facts folded from a rollout tail.
#[derive(Debug, Clone, PartialEq, Eq)]
pub struct RolloutFacts {
    /// Folded status.
    pub status: Status,
    /// Total token usage from the last `token_count` line.
    pub tokens: Option<u64>,
    /// That total as a percentage of the model's context window, from that same line.
    pub ctx_pct: Option<u8>,
    /// The first line of the last prompt, cut to sixty characters: the semantic name.
    pub name: Option<String>,
}

/// What `RolloutFacts` stand for.
pub struct RolloutFactsModel {
    pub status: Status,
    pub tokens: Option<u64>,
    pub ctx_pct: Option<u8>,
    pub name: Option<Seq<char>>,
}

impl View for RolloutFacts {
    type V = RolloutFactsModel;

    open spec fn view(&self) -> RolloutFactsModel {
        RolloutFactsModel {
            status: self.status,
            tokens: self.tokens,
            ctx_pct: self.ctx_pct,
            name: opt_text(self.name),
        }
    }
}

/// Before the first line nothing is known.
pub open spec fn rollout_start() -> RolloutStateModel {
    RolloutStateModel { signal: None, tokens: None, ctx_pct: None, name: None }
}

/// Whether an event asks the user for something.
pub open spec fn is_request(kind: Seq<char>) -> bool {
    ||| kind == "exec_approval_request"@
    ||| kind == "apply_patch_approval_request"@
    ||| kind == "elicitation_request"@
    ||| kind == "request_user_input"@
}

/// What an event of this kind says about the turn, after what was said before.
pub open spec fn event_signal(kind: Seq<char>, before: Option<Signal>) -> Option<Signal> {
    if kind == "task_complete"@ {
        Some(Signal::Complete)
    } else if kind == "task_started"@ || kind == "token_count"@ {
        Some(Signal::Activity)
    } else if is_request(kind) {
        Some(Signal::NeedsAnswer)
    } else {
        before
    }
}

/// The name a prompt gives: its first line, cut to sixty characters; none for an empty prompt.
pub open spec fn prompt_name(prompt: Seq<char>) -> Option<Seq<char>> {
    if lines(prompt).len() == 0 {
        None
    } else {
        let first = lines(prompt)[0];
        Some(
            if first.len() <= NAME_CHARS {
                first
            } else {
                first.take(NAME_CHARS as int)
            },
        )
    }
}

/// Context use in percent, capped at what a byte holds; unknown without a window to measure by.
pub open spec fn window_pct(total: u64, window: Option<u64>) -> Option<u8> {
    match window {
        Some(w) => if w > 0 {
            Some(clamped_pct(percent(total, w)))
        } else {
            None
        },
        None => None,
    }
}

/// What an event line does to the state.
pub open spec fn after_event(
    state: RolloutStateModel,
    kind: Seq<char>,
    line: RolloutLineModel,
) -> RolloutStateModel {
    let counted = kind == "token_count"@ && line.total_tokens is Some;
    RolloutStateModel {
        signal: event_signal(kind, state.signal),
        tokens: if counted {
            line.total_tokens
        } else {
            state.tokens
        },
        ctx_pct: if counted {
            window_pct(line.total_tokens->0, line.context_window)
        } else {
            state.ctx_pct
        },
        name: if kind == "user_message"@ && line.message is Some {
            prompt_name(line.message->0)
        } else {
            state.name
        },
    }
}

/// What one line does to the state: streamed output and events count, all else is skipped.
pub open spec fn after_line(state: RolloutStateModel, line: RolloutLineModel) -> RolloutStateModel {
    if line.envelope == Some("response_item"@) {
        RolloutStateModel { signal: Some(Signal::Activity), ..state }
    } else if line.envelope == Some("event_msg"@) && line.kind is Some {
        after_event(state, line.kind->0, line)
    } else {
        state
    }
}

/// The state after all of `lines`, in file order.
pub open spec fn after_lines(lines: Seq<RolloutLineModel>) -> RolloutStateModel
    decreases lines.len(),
{
    if lines.len() == 0 {
        rollout_start()
    } else {
        after_line(after_lines(lines.drop_last()), lines.last())
    }
}

/// The status a last signal means, given the rollout's age.
pub open spec fn signal_status(signal: Option<Signal>, age_secs: Option<u64>) -> Status {
    match signal {
        Some(Signal::NeedsAnswer) => Status::NeedsAnswer,
        Some(Signal::Activity) => if silent(age_secs) {
            Status::Stalled
        } else {
            Status::Working
        },
        _ => Status::Idle,
    }
}

/// The facts that rollout lines and the rollout's age add up to.
pub open spec fn rollout_facts(
    lines: Seq<RolloutLineModel>,
    age_secs: Option<u64>,
) -> RolloutFactsModel {
    let end = after_lines(lines);
    RolloutFactsModel {
        status: signal_status(end.signal, age_secs),
        tokens: end.tokens,
        ctx_pct: end.ctx_pct,
        name: end.name,
    }
}

/// What one piece of a rollout between line feeds says. A piece that is not JSON says nothing,
/// and no more is read of a line than its kind calls for.
pub open spec fn line_of(piece: Seq<u8>) -> RolloutLineModel {
    let envelope = json_text_at(piece, "/type"@);
    let kind = if envelope == Some("event_msg"@) {
        json_text_at(piece, "/payload/type"@)
    } else {
        None
    };
    let counts = kind == Some("token_count"@);
    RolloutLineModel {
        envelope,
        kind,
        message: if kind == Some("user_message"@) {
            json_text_at(piece, "/payload/message"@)
        } else {
            None
        },
        total_tokens: if counts {
            json_number_at(piece, "/payload/info/total_token_usage/total_tokens"@)
        } else {
            None
        },
        context_window: if counts {
            json_number_at(piece, "/payload/info/model_context_window"@)
        } else {
            None
        },
    }
}

/// What the pieces of a rollout between line feeds say: empty ones are skipped.
pub open spec fn lines_said(pieces: Seq<Seq<u8>>) -> Seq<RolloutLineModel>
    decreases pieces.len(),
{
    if pieces.len() == 0 {
        seq![]
    } else {
        let before = lines_said(pieces.drop_last());
        if pieces.last().len() > 0 {
            before.push(line_of(pieces.last()))
        } else {
            before
        }
    }
}

/// What a rollout tail says, line by line.
pub open spec fn tail_lines(bytes: Seq<u8>) -> Seq<RolloutLineModel> {
    lines_said(split(bytes, 10u8))
}

/// Whether `text` is there and is `wanted`.
fn says(text: &Option<String>, wanted: &str) -> (r: bool)
    ensures
        r == (opt_text(*text) == Some(wanted@)),
{
    match text {
        Some(t) => same_text(t.as_str(), wanted),
        None => false,
    }
}

/// Reads what the fold needs from one rollout line.
pub fn read_line(piece: &[u8]) -> (r: RolloutLine)
    ensures
        r@ == line_of(piece@),
{
    let envelope = text_at(piece, "/type");
    let kind = if says(&envelope, "event_msg") {
        text_at(piece, "/payload/type")
    } else {
        None
    };
    let message = if says(&kind, "user_message") {
        text_at(piece, "/payload/message")
    } else {
        None
    };
    let (total_tokens, context_window) = if says(&kind, "token_count") {
        (
            number_at(piece, "/payload/info/total_token_usage/total_tokens"),
            number_at(piece, "/payload/info/model_context_window"),
        )
    } else {
        (None, None)
    };
    RolloutLine { envelope, kind, message, total_tokens, context_window }
}

/// Reads a rollout tail line by line.
pub fn read_tail_lines(bytes: &[u8]) -> (r: Vec<RolloutLine>)
    ensures
        views_of(r@) == tail_lines(bytes@),
{
    let pieces = byte_lines(bytes);
    let ghost all = byte_views(pieces@);
    let mut out: Vec<RolloutLine> = Vec::new();
    let mut i: usize = 0;
    assert(all.take(0) =~= seq![]);
    assert(views_of(out@) =~= seq![]);
    while i < pieces.len()
        invariant
            i <= pieces.len(),
            all == byte_views(pieces@),
            views_of(out@) == lines_said(all.take(i as int)),
        decreases pieces.len() - i,
    {
        let piece = pieces[i];
        let ghost before = views_of(out@);
        assert(all.take(i + 1).drop_last() =~= all.take(i as int));
        assert(all.take(i + 1).last() == piece@);
        if piece.len() > 0 {
            out.push(read_line(piece));
            assert(views_of(out@) =~= before.push(line_of(piece@)));
        }
        i += 1;
    }
    assert(all.take(i as int) =~= all);
    out
}

/// The pieces of `bytes` between line feeds.
fn byte_lines<'a>(bytes: &'a [u8]) -> (r: Vec<&'a [u8]>)
    ensures
        byte_views(r@) == split(bytes@, 10u8),
{
    let mut out: Vec<&'a [u8]> = Vec::new();
    let mut rest = bytes;
    assert(byte_views(out@) =~= seq![]);
    loop
        invariant
            byte_views(out@) + split(rest@, 10u8) == split(bytes@, 10u8),
        decreases rest@.len(),
    {
        let i = find_byte(rest, 10);
        let ghost before = byte_views(out@);
        if i == rest.len() {
            out.push(rest);
            assert(byte_views(out@) =~= before.push(rest@));
            assert(before + split(rest@, 10u8) =~= before.push(rest@));
            return out;
        }
        out.push(slice_subrange(rest, 0, i));
        assert(rest@.subrange(0, i as int) =~= rest@.take(i as int));
        assert(rest@.subrange(i + 1, rest@.len() as int) =~= rest@.skip(i + 1));
        assert(byte_views(out@) =~= before.push(rest@.take(i as int)));
        assert(byte_views(out@) + split(rest@.skip(i + 1), 10u8) =~= before + split(rest@, 10u8));
        rest = slice_subrange(rest, i + 1, rest.len());
    }
}

/// The name a prompt gives.
fn name_of_prompt(prompt: &str) -> (r: Option<String>)
    ensures
        opt_text(r) == prompt_name(prompt@),
{
    let chars = chars_of(prompt);
    let all = lines_of(chars.as_slice());
    if all.len() == 0 {
        return None;
    }
    let first = all[0];
    assert(lines(prompt@)[0] == first@);
    if first.len() <= NAME_CHARS {
        Some(string_of(first))
    } else {
        assert(first@.subrange(0, NAME_CHARS as int) =~= first@.take(NAME_CHARS as int));
        Some(string_of(slice_subrange(first, 0, NAME_CHARS)))
    }
}

/// Context use in percent.
fn pct_of_window(total: u64, window: Option<u64>) -> (r: Option<u8>)
    ensures
        r == window_pct(total, window),
{
    match window {
        Some(w) => if w > 0 {
            let pct = percent_of(total, w);
            Some(
                if pct <= 255 {
                    pct as u8
                } else {
                    255
                },
            )
        } else {
            None
        },
        None => None,
    }
}

/// Takes one line into account: the last signal, token count and prompt win.
pub fn fold_line(state: RolloutState, line: &RolloutLine) -> (r: RolloutState)
    ensures
        r@ == after_line(state@, line@),
{
    let mut out = state;
    let envelope = match &line.envelope {
        Some(e) => e.as_str(),
        None => return out,
    };
    if same_text(envelope, "response_item") {
        out.signal = Some(Signal::Activity);
        return out;
    }
    if !same_text(envelope, "event_msg") {
        return out;
    }
    let kind = match &line.kind {
        Some(k) => k.as_str(),
        None => return out,
    };
    if same_text(kind, "user_message") {
        if let Some(message) = &line.message {
            out.name = name_of_prompt(message.as_str());
        }
    }
    if same_text(kind, "token_count") {
        if let Some(total) = line.total_tokens {
            out.tokens = Some(total);
            out.ctx_pct = pct_of_window(total, line.context_window);
        }
    }
    if same_text(kind, "task_complete") {
        out.signal = Some(Signal::Complete);
    } else if same_text(kind, "task_started") || same_text(kind, "token_count") {
        out.signal = Some(Signal::Activity);
    } else if same_text(kind, "exec_approval_request") || same_text(
        kind,
        "apply_patch_approval_request",
    ) || same_text(kind, "elicitation_request") || same_text(kind, "request_user_input") {
        out.signal = Some(Signal::NeedsAnswer);
    }
    out
}

/// Folds rollout lines, in file order, and the rollout's age into facts.
pub fn fold_rollout_lines(lines: &[RolloutLine], age_secs: Option<u64>) -> (r: RolloutFacts)
    ensures
        r@ == rollout_facts(views_of(lines@), age_secs),
{
    let ghost all = views_of(lines@);
    let mut state = RolloutState { signal: None, tokens: None, ctx_pct: None, name: None };
    let mut i: usize = 0;
    assert(all.take(0) =~= seq![]);
    while i < lines.len()
        invariant
            i <= lines.len(),
            all == views_of(lines@),
            state@ == after_lines(all.take(i as int)),
        decreases lines.len() - i,
    {
        assert(all.take(i + 1).drop_last() =~= all.take(i as int));
        assert(all.take(i + 1).last() == lines@[i as int]@);
        state = fold_line(state, &lines[i]);
        i += 1;
    }
    assert(all.take(i as int) =~= all);
    let status = match state.signal {
        Some(Signal::NeedsAnswer) => Status::NeedsAnswer,
        Some(Signal::Activity) => match age_secs {
            Some(age) => if age > STALL_AFTER_SECS {
                Status::Stalled
            } else {
                Status::Working
            },
            None => Status::Working,
        },
        _ => Status::Idle,
    };
    RolloutFacts { status, tokens: state.tokens, ctx_pct: state.ctx_pct, name: state.name }
}

/// Folds a rollout tail into status, tokens, context use and name. `age_secs` is the age of the
/// rollout file: working or stalled hinges on it. Garbage and unknown lines are skipped.
pub fn fold_rollout_tail(bytes: &[u8], age_secs: Option<u64>) -> (r: RolloutFacts)
    ensures
        r@ == rollout_facts(tail_lines(bytes@), age_secs),
{
    let lines = read_tail_lines(bytes);
    fold_rollout_lines(lines.as_slice(), age_secs)
}

/// Two rollouts that leave the same state, with the same lines after them, leave the same state.
proof fn lemma_after_same_state(
    a: Seq<RolloutLineModel>,
    b: Seq<RolloutLineModel>,
    more: Seq<RolloutLineModel>,
)
    requires
        after_lines(a) == after_lines(b),
    ensures
        after_lines(a + more) == after_lines(b + more),
    decreases more.len(),
{
    if more.len() == 0 {
        assert(a + more =~= a);
        assert(b + more =~= b);
    } else {
        lemma_after_same_state(a, b, more.drop_last());
        assert((a + more).drop_last() =~= a + more.drop_last());
        assert((b + more).drop_last() =~= b + more.drop_last());
    }
}

/// A line that is neither streamed output nor an event with a kind makes no difference, wherever
/// it stands: garbage included, which has no envelope.
pub proof fn unknown_lines_make_no_difference(
    before: Seq<RolloutLineModel>,
    line: RolloutLineModel,
    after: Seq<RolloutLineModel>,
    age_secs: Option<u64>,
)
    requires
        line.envelope != Some("response_item"@),
        line.envelope != Some("event_msg"@) || line.kind is None,
    ensures
        rollout_facts(before.push(line) + after, age_secs) == rollout_facts(
            before + after,
            age_secs,
        ),
{
    assert(before.push(line).drop_last() =~= before);
    assert(after_lines(before.push(line)) == after_lines(before));
    lemma_after_same_state(before.push(line), before, after);
}

/// The last signal wins: whatever came before, a line that says something about the turn decides
/// the status.
pub proof fn the_last_signal_wins(
    before: Seq<RolloutLineModel>,
    line: RolloutLineModel,
    age_secs: Option<u64>,
)
    ensures
        line.envelope == Some("event_msg"@) && line.kind == Some("task_complete"@)
            ==> rollout_facts(before.push(line), age_secs).status == Status::Idle,
        line.envelope == Some("event_msg"@) && line.kind is Some && is_request(line.kind->0)
            ==> rollout_facts(before.push(line), age_secs).status == Status::NeedsAnswer,
        (line.envelope == Some("response_item"@) || (line.envelope == Some("event_msg"@) && (
        line.kind == Some("task_started"@) || line.kind == Some("token_count"@))))
            ==> rollout_facts(before.push(line), age_secs).status == if silent(age_secs) {
            Status::Stalled
        } else {
            Status::Working
        },
{
    assert(before.push(line).drop_last() =~= before);
    let kind = line.kind;
    reveal_strlit("task_complete");
    reveal_strlit("task_started");
    reveal_strlit("token_count");
    reveal_strlit("exec_approval_request");
    reveal_strlit("apply_patch_approval_request");
    reveal_strlit("elicitation_request");
    reveal_strlit("request_user_input");
    reveal_strlit("response_item");
    reveal_strlit("event_msg");
    assert("response_item"@.len() != "event_msg"@.len());
    if kind is Some && is_request(kind->0) {
        assert(kind->0 != "task_complete"@) by {
            assert(kind->0.len() != "task_complete"@.len());
        }
        assert(kind->0 != "task_started"@ && kind->0 != "token_count"@);
    }
    assert("task_started"@.len() != "task_complete"@.len());
    assert("token_count"@.len() != "task_complete"@.len());
}

/// A name is a single line of at most sixty characters.
pub proof fn a_name_is_one_short_line(prompt: Seq<char>)
    ensures
        prompt_name(prompt) matches Some(name) ==> name.len() <= NAME_CHARS && !name.contains(
            '\n',
        ),
{
    lemma_position(prompt, '\n');
}

/// Pieces after a line feed are pieces of their own.
proof fn lemma_split_of_sum(a: Seq<u8>, b: Seq<u8>)
    requires
        a.len() > 0,
        a.last() == 10u8,
    ensures
        split(a, 10u8).len() > 0,
        split(a, 10u8).last() == Seq::<u8>::empty(),
        split(a + b, 10u8) == split(a, 10u8).drop_last() + split(b, 10u8),
    decreases a.len(),
{
    lemma_position(a, 10u8);
    let i = position(a, 10u8) as int;
    assert(a[a.len() - 1] == 10u8);
    assert(i < a.len());
    assert forall|j: int| 0 <= j < i implies (a + b)[j] != 10u8 by {
        assert((a + b)[j] == a[j]);
    }
    lemma_position_is(a + b, 10u8, i);
    let rest = a.skip(i + 1);
    assert((a + b).take(i) =~= a.take(i));
    assert((a + b).skip(i + 1) =~= rest + b);
    let first = seq![a.take(i)];
    if rest.len() == 0 {
        assert(rest =~= Seq::<u8>::empty());
        assert(split(rest, 10u8) =~= seq![Seq::<u8>::empty()]);
        assert(rest + b =~= b);
        assert(split(a, 10u8).drop_last() =~= first);
    } else {
        assert(rest.last() == a.last());
        lemma_split_of_sum(rest, b);
        assert(split(a, 10u8).drop_last() =~= first + split(rest, 10u8).drop_last());
    }
    assert(split(a + b, 10u8) =~= split(a, 10u8).drop_last() + split(b, 10u8));
}

proof fn lemma_said_of_sum(a: Seq<Seq<u8>>, b: Seq<Seq<u8>>)
    ensures
        lines_said(a + b) == lines_said(a) + lines_said(b),
    decreases b.len(),
{
    if b.len() == 0 {
        assert(a + b =~= a);
        assert(lines_said(a) + lines_said(b) =~= lines_said(a));
    } else {
        lemma_said_of_sum(a, b.drop_last());
        assert((a + b).drop_last() =~= a + b.drop_last());
        assert(lines_said(a + b) =~= lines_said(a) + lines_said(b));
    }
}

/// Rollout lines are read independently and in order: after whole lines, whatever bytes they
/// hold, what follows says what it would say alone.
pub proof fn rollout_lines_are_read_independently(a: Seq<u8>, b: Seq<u8>)
    requires
        whole_lines(a),
    ensures
        tail_lines(a + b) == tail_lines(a) + tail_lines(b),
{
    let pieces = split(a, 10u8);
    if a.len() == 0 {
        assert(a + b =~= b);
        assert(pieces =~= seq![a]);
        assert(pieces.drop_last() =~= seq![]);
        assert(lines_said(pieces.drop_last()) =~= seq![]);
        assert(tail_lines(a) =~= seq![]);
        assert(tail_lines(a) + tail_lines(b) =~= tail_lines(b));
    } else {
        lemma_split_of_sum(a, b);
        lemma_said_of_sum(pieces.drop_last(), split(b, 10u8));
        assert(tail_lines(a) == lines_said(pieces.drop_last()));
    }
}

/// An event of any other kind than those that speak of the turn leaves the status as it was: a
/// prompt, a message of the agent, whatever is yet to come.
pub proof fn other_events_leave_the_status(
    before: Seq<RolloutLineModel>,
    line: RolloutLineModel,
    kind: Seq<char>,
    age_secs: Option<u64>,
)
    requires
        line.envelope == Some("event_msg"@),
        line.kind == Some(kind),
        kind != "task_complete"@,
        kind != "task_started"@,
        kind != "token_count"@,
        kind != "exec_approval_request"@,
        kind != "apply_patch_approval_request"@,
        kind != "elicitation_request"@,
        kind != "request_user_input"@,
    ensures
        rollout_facts(before.push(line), age_secs).status == rollout_facts(before, age_secs).status,
        rollout_facts(before.push(line), age_secs).tokens == rollout_facts(before, age_secs).tokens,
        rollout_facts(before.push(line), age_secs).ctx_pct == rollout_facts(
            before,
            age_secs,
        ).ctx_pct,
{
    assert(before.push(line).drop_last() =~= before);
    reveal_strlit("response_item");
    reveal_strlit("event_msg");
    assert("response_item"@.len() != "event_msg"@.len());
}

/// What the last word on the turn means: a completed task is idle, a request needs an answer, and
/// activity is work until the rollout has been silent for more than five minutes.
pub proof fn what_a_signal_means(
    before: Seq<RolloutLineModel>,
    line: RolloutLineModel,
    age_secs: Option<u64>,
)
    ensures
        line.envelope == Some("event_msg"@) && line.kind == Some("task_complete"@)
            ==> rollout_facts(before.push(line), age_secs).status == Status::Idle,
        line.envelope == Some("event_msg"@) && (line.kind == Some("exec_approval_request"@)
            || line.kind == Some("apply_patch_approval_request"@) || line.kind == Some(
            "elicitation_request"@,
        ) || line.kind == Some("request_user_input"@)) ==> rollout_facts(
            before.push(line),
            age_secs,
        ).status == Status::NeedsAnswer,
        (line.envelope == Some("response_item"@) || (line.envelope == Some("event_msg"@) && (
        line.kind == Some("task_started"@) || line.kind == Some("token_count"@))))
            ==> rollout_facts(before.push(line), age_secs).status == (if age_secs is Some
            && age_secs->0 > 300 {
            Status::Stalled
        } else {
            Status::Working
        }),
        rollout_facts(Seq::empty(), age_secs).status == Status::Idle,
        rollout_facts(Seq::empty(), age_secs).tokens is None,
        rollout_facts(Seq::empty(), age_secs).ctx_pct is None,
        rollout_facts(Seq::empty(), age_secs).name is None,
{
    the_last_signal_wins(before, line, age_secs);
}

/// Only a prompt names the session: a `user_message` with a text, whose first line it is. Any
/// other line leaves the name as it was.
pub proof fn only_a_prompt_names(
    before: Seq<RolloutLineModel>,
    line: RolloutLineModel,
    age_secs: Option<u64>,
)
    ensures
        ({
            let after = rollout_facts(before.push(line), age_secs).name;
            if line.envelope == Some("event_msg"@) && line.kind == Some("user_message"@)
                && line.message is Some {
                let prompt = line.message->0;
                let first = lines(prompt)[0];
                if prompt.len() == 0 {
                    after is None
                } else if first.len() <= 60 {
                    after == Some(first)
                } else {
                    after == Some(first.take(60))
                }
            } else {
                after == rollout_facts(before, age_secs).name
            }
        }),
{
    assert(before.push(line).drop_last() =~= before);
    reveal_strlit("response_item");
    reveal_strlit("event_msg");
    assert("response_item"@.len() != "event_msg"@.len());
    if line.message is Some {
        lemma_position(line.message->0, '\n');
    }
}

/// Only a token count with a total counts: the total is taken as it is, and its share of the
/// window, rounded down, where there is one. Any other line leaves both as they were.
pub proof fn only_a_count_counts(
    before: Seq<RolloutLineModel>,
    line: RolloutLineModel,
    age_secs: Option<u64>,
)
    ensures
        ({
            let after = rollout_facts(before.push(line), age_secs);
            let earlier = rollout_facts(before, age_secs);
            if line.envelope == Some("event_msg"@) && line.kind == Some("token_count"@)
                && line.total_tokens is Some {
                let total = line.total_tokens->0;
                &&& after.tokens == Some(total)
                &&& match (line.context_window, after.ctx_pct) {
                    (Some(w), Some(pct)) => w > 0 && (total * 100 <= u64::MAX ==> pct * w <= total
                        * 100 && (total * 100 < (pct + 1) * w || pct == 255)),
                    (Some(w), None) => w == 0,
                    (None, pct) => pct is None,
                }
            } else {
                after.tokens == earlier.tokens && after.ctx_pct == earlier.ctx_pct
            }
        }),
{
    assert(before.push(line).drop_last() =~= before);
    reveal_strlit("response_item");
    reveal_strlit("event_msg");
    assert("response_item"@.len() != "event_msg"@.len());
    if let (Some(total), Some(w)) = (line.total_tokens, line.context_window) {
        if w > 0 && total * 100 <= u64::MAX {
            a_percentage_is_rounded_down(total, w);
            let pct = percent(total, w);
            if pct > 255 {
                assert(255 * w <= pct * w) by (nonlinear_arith)
                    requires
                        pct > 255,
                        w > 0,
                ;
            }
        }
    }
}

/// The fold reads a line by its envelope, an event by its kind, a prompt by its message, and a
/// token count by its total and window, each from its own place in the document.
pub proof fn a_line_is_read_from_its_places(piece: Seq<u8>)
    ensures
        line_of(piece).envelope == json_text_at(piece, "/type"@),
        line_of(piece).envelope == Some("event_msg"@) ==> line_of(piece).kind == json_text_at(
            piece,
            "/payload/type"@,
        ),
        line_of(piece).envelope == Some("event_msg"@) && line_of(piece).kind == Some(
            "user_message"@,
        ) ==> line_of(piece).message == json_text_at(piece, "/payload/message"@),
        line_of(piece).envelope == Some("event_msg"@) && line_of(piece).kind == Some(
            "token_count"@,
        ) ==> line_of(piece).total_tokens == json_number_at(
            piece,
            "/payload/info/total_token_usage/total_tokens"@,
        ) && line_of(piece).context_window == json_number_at(
            piece,
            "/payload/info/model_context_window"@,
        ),
{
}

/// Each line of a rollout that is not empty is read, in order.
pub proof fn every_line_is_read(line: Seq<u8>, rest: Seq<u8>)
    requires
        !occurs(line, 10u8),
    ensures
        line.len() > 0 ==> tail_lines(line) == seq![line_of(line)],
        line.len() > 0 ==> tail_lines(line.push(10u8) + rest) == seq![line_of(line)] + tail_lines(
            rest,
        ),
        tail_lines(seq![10u8] + rest) == tail_lines(rest),
        tail_lines(Seq::empty()) == Seq::<RolloutLineModel>::empty(),
{
    splitting_parts_at_the_first(line, 10u8, rest);
    splitting_parts_at_the_first(Seq::<u8>::empty(), 10u8, rest);
    assert(line + seq![10u8] + rest =~= line.push(10u8) + rest);
    assert(Seq::<u8>::empty() + seq![10u8] + rest =~= seq![10u8] + rest);
    let pieces = split(rest, 10u8);
    lemma_said_of_sum(seq![line], pieces);
    lemma_said_of_sum(seq![Seq::<u8>::empty()], pieces);
    assert(seq![line].drop_last() =~= seq![]);
    assert(lines_said(seq![]) =~= seq![]);
    assert(line.len() > 0 ==> lines_said(seq![line]) =~= seq![line_of(line)]);
    let nothing = seq![Seq::<u8>::empty()];
    assert(nothing.drop_last() =~= seq![]);
    assert(lines_said(nothing) =~= seq![]);
    assert(tail_lines(seq![10u8] + rest) =~= tail_lines(rest));
}

/// The models hold what the values hold.
pub proof fn rollout_models_hold_every_field(
    line: RolloutLine,
    state: RolloutState,
    facts: RolloutFacts,
)
    ensures
        line.envelope matches Some(t) ==> line@.envelope == Some(t@),
        line.envelope is None ==> line@.envelope is None,
        line.kind matches Some(t) ==> line@.kind == Some(t@),
        line.kind is None ==> line@.kind is None,
        line.message matches Some(t) ==> line@.message == Some(t@),
        line.message is None ==> line@.message is None,
        line@.total_tokens == line.total_tokens,
        line@.context_window == line.context_window,
        state@.signal == state.signal,
        state@.tokens == state.tokens,
        state@.ctx_pct == state.ctx_pct,
        state.name matches Some(t) ==> state@.name == Some(t@),
        state.name is None ==> state@.name is None,
        facts@.status == facts.status,
        facts@.tokens == facts.tokens,
        facts@.ctx_pct == facts.ctx_pct,
        facts.name matches Some(t) ==> facts@.name == Some(t@),
        facts.name is None ==> facts@.name is None,
{
}

} // verus!
