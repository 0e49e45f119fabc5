# fleetops

An ops board for every coding-agent session running on a machine: which sessions are working,
which are idle, and which are blocked waiting on their user, with the tokens they spent, the
context they used, and the terminal surface each one lives in.

The logic is a Verus library, and every item of it is verified. `app/` holds what touches the
machine: external commands, files, and the JSON that others write.

## What is where

- `src/discovery.rs` — session files filtered by the process table; a reused pid is never live.
- `src/procsrc.rs` — the process table, from `ps`.
- `src/fold.rs`, `src/telemetry.rs` — one status per session; context use in percent.
- `src/cmux.rs`, `src/panes.rs` — terminal topology and the jump, for cmux and for wezterm.
- `src/board.rs` — sessions, telemetry and surfaces joined into rows, sorted by attention.
- `src/rollout.rs`, `src/codex.rs` — Codex sessions: fold a rollout's tail, join processes to
  rollouts, build their rows.
- `src/git.rs` — the branch of a directory, from what stands at `.git`.
- `src/collect.rs` — the one pipeline that both the board and the snapshot take their rows from.
- `src/doctor.rs`, `src/snapshot.rs` — the drift report, and the board as a document.
- `src/lastgood.rs` — what a lane shows while its source fails.
- `src/text.rs`, `src/decode.rs`, `src/number.rs`, `src/order.rs`, `src/textset.rs`, `src/json.rs`,
  `src/runner.rs`, `src/error.rs` — the ground the rest stands on.

## How contracts are written

Each type with text in it has a model, a ghost type over `Seq<char>`, and contracts speak of
models. A parser of bytes decodes them line by line and hands the lines to a parser of text, which
is exact; where the bytes are UTF-8, that is the parse of the decoded whole. Laws that relate
several functions are public proof functions.

What is believed without proof: `String::push`, `String::from_utf8_lossy`, the `Debug` form of a
string, and what `serde_json` finds at a JSON pointer.
