//! Codex CLI sessions on the board: recognize the process, join its rollout, build its row.
//!
//! The join is by working directory, and it never guesses: two processes that share a directory
//! are joined to nothing, and a rollout older than the process (less a slack) is not its own.

use std::collections::HashMap;
use vstd::prelude::*;
use vstd::slice::slice_subrange;
use vstd::string::*;
use crate::board::{
    borrowed, branch_at, highlight_target, highlightable, match_surface, matched_pane, pane_stream,
    stream_of, RowModel, SessionRow,
};
use crate::cmux::{Surface, SurfaceModel};
use crate::decode::{
    borrowed_lines, lines_decode_independently, lossy_lines, lossy_lines_of, whole_lines,
};
use crate::fold::Status;
use crate::number::{
    decimal, decimal_reads_back, decimal_text, is_digit, lemma_decimal_digits,
    only_digits_are_a_number, parse_u32, parsed_u32,
};
use crate::order::{a_sorted_list_holds_the_same, stable_sort, stable_sort_of, views_of, Ranked};
use crate::procsrc::{table_model, ProcFactsModel, ProcTable};
use crate::rollout::{
    fold_rollout_tail, rollout_facts, tail_lines, RolloutFacts, RolloutFactsModel,
};
use crate::runner::{command, owned, plain_command, CommandModel, CommandSpec};
use crate::text::{
    a_word_is_its_only_word, after_last, after_prefix_of, all_white, chars_of, ends_with,
    is_ascii_white, is_text, is_white, is_word, join, last_position, lemma_trim_start_skips, lines,
    lines_of, nothing_follows_the_last, opt_text, pieces_stand_between_separators, same_text,
    starts_with, string_of, text_ends_with, texts, trim, trim_of, trim_start, trim_start_of,
    trimming_cuts_white_ends, views, white, white_space_has_no_words, white_space_parts_words,
    words, words_of,
};

verus! {

broadcast use vstd::std_specs::hash::group_hash_axioms;

/// How much older than its process, in seconds, a rollout may be and still be joined to it.
pub const JOIN_SLACK_SECS: u64 = 600;

/// The most rollout files that one sweep reads.
pub const MAX_ROLLOUTS: usize = 300;

/// How much of a rollout's end is read, in bytes.
pub const TAIL_BYTES: u64 = 262_144;

/// The first line of a rollout: whose it is.
#[derive(Debug, PartialEq, Eq)]
pub struct SessionMeta {
    /// The rollout's session UUID.
    pub id: String,
    /// The process's directory at session start: the join key.
    pub cwd: String,
}

/// What a `SessionMeta` stands for.
pub struct SessionMetaModel {
    pub id: Seq<char>,
    pub cwd: Seq<char>,
}

impl View for SessionMeta {
    type V = SessionMetaModel;

    open spec fn view(&self) -> SessionMetaModel {
        SessionMetaModel { id: self.id@, cwd: self.cwd@ }
    }
}

impl Clone for SessionMeta {
    fn clone(&self) -> (r: Self)
        ensures
            r@ == self@,
    {
        SessionMeta { id: self.id.clone(), cwd: self.cwd.clone() }
    }
}

/// The session that a first line of this kind names.
pub open spec fn named_session(
    kind: Seq<char>,
    id: Seq<char>,
    cwd: Seq<char>,
) -> Option<SessionMetaModel> {
    if kind == "session_meta"@ {
        Some(SessionMetaModel { id, cwd })
    } else {
        None
    }
}

/// The session that a rollout's first line names, if that line is a `session_meta`.
pub fn session_meta(kind: &str, id: String, cwd: String) -> (r: Option<SessionMeta>)
    ensures
        match r {
            Some(meta) => named_session(kind@, id@, cwd@) == Some(meta@),
            None => named_session(kind@, id@, cwd@) is None,
        },
        match r {
            Some(meta) => kind@ == "session_meta"@ && meta@ == (SessionMetaModel {
                id: id@,
                cwd: cwd@,
            }),
            None => kind@ != "session_meta"@,
        },
{
    if same_text(kind, "session_meta") {
        Some(SessionMeta { id, cwd })
    } else {
        None
    }
}

/// The last path segment.
pub open spec fn basename(path: Seq<char>) -> Seq<char> {
    path.skip(last_position(path, '/') + 1)
}

/// Whether a command line is that of the interactive Codex: its one word is a path to `codex`.
pub open spec fn codex_argv(argv: Seq<char>) -> bool {
    words(argv).len() == 1 && basename(words(argv)[0]) == "codex"@
}

/// A Codex TUI process: argv is exactly one token whose basename is `codex`, and it owns a tty.
/// The node shim (`node /…/codex`), `codex exec …` and `codex --version` all carry more argv.
pub fn is_codex_tui(argv: &str, tty: Option<&str>) -> (r: bool)
    ensures
        r == (codex_argv(argv@) && tty is Some),
{
    let chars = chars_of(argv);
    is_codex_argv(chars.as_slice()) && tty.is_some()
}

fn is_codex_argv(argv: &[char]) -> (r: bool)
    ensures
        r == codex_argv(argv@),
{
    let tokens = words_of(argv);
    if tokens.len() != 1 {
        return false;
    }
    let argv0 = tokens[0];
    assert(words(argv@)[0] == argv0@);
    let start = after_last(argv0, '/');
    assert(argv0@.subrange(start as int, argv0@.len() as int) =~= basename(argv0@));
    is_text(slice_subrange(argv0, start, argv0.len()), "codex")
}

/// How many characters at the front of `s` are not white space.
pub open spec fn until_white(s: Seq<char>) -> nat
    decreases s.len(),
{
    if s.len() == 0 || is_white(s[0]) {
        0
    } else {
        1 + until_white(s.drop_first())
    }
}

/// The pid and the command line that one `ps` line tells of; `None` for any other line.
pub open spec fn process_line(line: Seq<char>) -> Option<(u32, Seq<char>)> {
    let l = trim_start(line);
    let i = until_white(l) as int;
    if i >= l.len() {
        None
    } else {
        match parsed_u32(l.take(i)) {
            Some(pid) => Some((pid, l.skip(i + 1))),
            None => None,
        }
    }
}

proof fn lemma_until_white_is(s: Seq<char>, n: int)
    requires
        0 <= n <= s.len(),
        n < s.len() ==> is_white(s[n]),
        forall|j: int| 0 <= j < n ==> !is_white(s[j]),
    ensures
        until_white(s) == n,
    decreases s.len(),
{
    if n > 0 {
        let t = s.drop_first();
        assert forall|j: int| 0 <= j < n - 1 implies !is_white(t[j]) by {
            assert(t[j] == s[j + 1]);
        }
        assert(n < s.len() ==> t[n - 1] == s[n]);
        lemma_until_white_is(t, n - 1);
    }
}

fn read_process_line<'a>(line: &'a [char]) -> (r: Option<(u32, &'a [char])>)
    ensures
        match r {
            Some((pid, argv)) => process_line(line@) == Some((pid, argv@)),
            None => process_line(line@) is None,
        },
{
    let l = trim_start_of(line);
    let mut i: usize = 0;
    while i < l.len() && !white(l[i])
        invariant
            i <= l.len(),
            forall|j: int| 0 <= j < i ==> !is_white(l@[j]),
        decreases l.len() - i,
    {
        i += 1;
    }
    proof {
        lemma_until_white_is(l@, i as int);
    }
    if i == l.len() {
        return None;
    }
    assert(l@.subrange(0, i as int) =~= l@.take(i as int));
    assert(l@.subrange(i + 1, l@.len() as int) =~= l@.skip(i + 1));
    match parse_u32(slice_subrange(l, 0, i)) {
        Some(pid) => Some((pid, slice_subrange(l, i + 1, l.len()))),
        None => None,
    }
}

/// The process-discovery call: pid and full argv of every process. Environments are not asked
/// for: `ps` would append them to the command line, whose words are counted.
pub fn procs_spec() -> (r: CommandSpec)
    ensures
        r@ == plain_command("ps"@, seq!["-Awwo"@, "pid=,args="@]),
{
    let args = owned(&["-Awwo", "pid=,args="]);
    assert(texts(args@) =~= seq!["-Awwo"@, "pid=,args="@]);
    command("ps", args)
}

/// Pids, each in decimal.
pub open spec fn pid_texts(pids: Seq<u32>) -> Seq<Seq<char>> {
    Seq::new(pids.len(), |i: int| decimal(pids[i] as nat))
}

/// The directory call for the given pids.
pub open spec fn cwds_command(pids: Seq<u32>) -> CommandModel {
    plain_command(
        "lsof"@,
        seq!["-a"@, "-d"@, "cwd"@, "-p"@, join(pid_texts(pids), ","@), "-Fpn"@],
    )
}

fn comma_separated(pids: &[u32]) -> (r: String)
    ensures
        r@ == join(pid_texts(pids@), ","@),
{
    let ghost all = pid_texts(pids@);
    let mut out = String::new();
    let mut i: usize = 0;
    assert(out@ =~= join(all.take(0), ","@));
    while i < pids.len()
        invariant
            i <= pids.len(),
            all == pid_texts(pids@),
            out@ == join(all.take(i as int), ","@),
        decreases pids.len() - i,
    {
        assert(all.take(i + 1).drop_last() =~= all.take(i as int));
        assert(all.take(i + 1).last() == decimal(pids@[i as int] as nat));
        let ghost before = out@;
        if i > 0 {
            out.append(",");
        }
        out.append(decimal_text(pids[i] as u64).as_str());
        assert(out@ =~= join(all.take(i + 1), ","@));
        i += 1;
    }
    assert(all.take(i as int) =~= all);
    out
}

/// The directory call: one batched call for all candidate pids, never one per pid.
pub fn cwds_spec(pids: &[u32]) -> (r: CommandSpec)
    ensures
        r@ == cwds_command(pids@),
{
    let csv = comma_separated(pids);
    let args = owned(&["-a", "-d", "cwd", "-p", csv.as_str(), "-Fpn"]);
    assert(texts(args@) =~= cwds_command(pids@).args);
    command("lsof", args)
}

/// The pids of Codex TUI processes among `ps` lines, in order. `ttys` holds, for each line that
/// tells of a process, the terminal it was found to own.
pub open spec fn codex_pids(lines: Seq<Seq<char>>, ttys: Seq<Option<String>>) -> Seq<u32>
    decreases lines.len(),
{
    if lines.len() == 0 {
        seq![]
    } else {
        let before = codex_pids(lines.drop_last(), ttys);
        match process_line(lines.last()) {
            Some((pid, argv)) => if codex_argv(trim(argv)) && ttys[lines.len() - 1] is Some {
                before.push(pid)
            } else {
                before
            },
            None => before,
        }
    }
}

/// `ttys` holds answers of `tty_of` to the pids in `lines`.
pub open spec fn answers<F: Fn(u32) -> Option<String>>(
    tty_of: F,
    lines: Seq<Seq<char>>,
    ttys: Seq<Option<String>>,
) -> bool {
    &&& ttys.len() == lines.len()
    &&& forall|i: int|
        #![trigger lines[i]]
        0 <= i < lines.len() ==> match process_line(lines[i]) {
            Some((pid, _)) => call_ensures(tty_of, (pid,), ttys[i]),
            None => true,
        }
}

fn pids_in_rows<F: Fn(u32) -> Option<String>>(all: &[&[char]], tty_of: &F) -> (r: Vec<u32>)
    requires
        forall|pid: u32| #[trigger] call_requires(*tty_of, (pid,)),
    ensures
        exists|ttys: Seq<Option<String>>| #[trigger]
            answers(*tty_of, views(all@), ttys) && r@ == codex_pids(views(all@), ttys),
{
    let ghost rows = views(all@);
    let ghost mut ttys: Seq<Option<String>> = seq![];
    let mut out: Vec<u32> = Vec::new();
    let mut i: usize = 0;
    assert(rows.take(0) =~= seq![]);
    assert(out@ =~= seq![]);
    while i < all.len()
        invariant
            i <= all.len(),
            rows == views(all@),
            forall|pid: u32| #[trigger] call_requires(*tty_of, (pid,)),
            answers(*tty_of, rows.take(i as int), ttys),
            out@ == codex_pids(rows.take(i as int), ttys),
        decreases all.len() - i,
    {
        let ghost seen = rows.take(i as int);
        let ghost next = rows.take(i + 1);
        let ghost mut answer: Option<String> = None;
        assert(next.drop_last() =~= seen);
        assert(next.last() == all@[i as int]@);
        if let Some((pid, argv)) = read_process_line(all[i]) {
            let tty = tty_of(pid);
            proof {
                answer = tty;
            }
            if is_codex_argv(trim_of(argv)) && tty.is_some() {
                out.push(pid);
            }
        }
        proof {
            let longer = ttys.push(answer);
            lemma_later_ttys(seen, ttys, longer);
            assert forall|k: int|
                #![trigger next[k]]
                0 <= k < next.len() implies match process_line(next[k]) {
                Some((pid, _)) => call_ensures(*tty_of, (pid,), longer[k]),
                None => true,
            } by {
                if k < i {
                    assert(next[k] == seen[k]);
                }
            }
            ttys = longer;
        }
        i += 1;
    }
    assert(rows.take(i as int) =~= rows);
    assert(answers(*tty_of, rows, ttys));
    out
}

/// Parses the text of `ps -Awwo pid=,args=`: the pids that pass the Codex TUI gate. `tty_of`
/// tells each pid's terminal.
pub fn parse_procs_text<F: Fn(u32) -> Option<String>>(text: &str, tty_of: &F) -> (r: Vec<u32>)
    requires
        forall|pid: u32| #[trigger] call_requires(*tty_of, (pid,)),
    ensures
        exists|ttys: Seq<Option<String>>| #[trigger]
            answers(*tty_of, lines(text@), ttys) && r@ == codex_pids(lines(text@), ttys),
{
    let chars = chars_of(text);
    pids_in_rows(lines_of(chars.as_slice()).as_slice(), tty_of)
}

/// Only the terminals of the lines themselves matter.
proof fn lemma_later_ttys(
    lines: Seq<Seq<char>>,
    a: Seq<Option<String>>,
    b: Seq<Option<String>>,
)
    requires
        forall|k: int| 0 <= k < lines.len() ==> a[k] == b[k],
    ensures
        codex_pids(lines, a) == codex_pids(lines, b),
    decreases lines.len(),
{
    if lines.len() > 0 {
        lemma_later_ttys(lines.drop_last(), a, b);
        assert(a[lines.len() - 1] == b[lines.len() - 1]);
    }
}

/// Parses `ps -Awwo pid=,args=` output: the pids that pass the Codex TUI gate. `tty_of` tells
/// each pid's terminal. Garbage rows are skipped, never fatal.
pub fn parse_procs<F: Fn(u32) -> Option<String>>(bytes: &[u8], tty_of: &F) -> (r: Vec<u32>)
    requires
        forall|pid: u32| #[trigger] call_requires(*tty_of, (pid,)),
    ensures
        exists|ttys: Seq<Option<String>>| #[trigger]
            answers(*tty_of, lossy_lines(bytes@), ttys) && r@ == codex_pids(
                lossy_lines(bytes@),
                ttys,
            ),
        vstd::utf8::valid_utf8(bytes@) ==> exists|ttys: Seq<Option<String>>| #[trigger]
            answers(*tty_of, lines(vstd::utf8::decode_utf8(bytes@)), ttys) && r@ == codex_pids(
                lines(vstd::utf8::decode_utf8(bytes@)),
                ttys,
            ),
{
    let decoded = lossy_lines_of(bytes);
    pids_in_rows(borrowed_lines(&decoded).as_slice(), tty_of)
}

/// The directories read so far from `lsof` fields, and the pid that the fields now speak of.
pub struct CwdsRead {
    pub cwds: Map<u32, Seq<char>>,
    pub current: Option<u32>,
}

/// What one `lsof` field line adds: `p` names the pid, `n` its directory, of which the first
/// counts. Any other line is skipped.
pub open spec fn after_field(read: CwdsRead, line: Seq<char>) -> CwdsRead {
    if line.len() > 0 && line[0] == 'p' {
        CwdsRead { cwds: read.cwds, current: parsed_u32(trim(line.skip(1))) }
    } else if line.len() > 0 && line[0] == 'n' && read.current is Some
        && !read.cwds.contains_key(read.current->0) {
        CwdsRead {
            cwds: read.cwds.insert(read.current->0, trim(line.skip(1))),
            current: read.current,
        }
    } else {
        read
    }
}

/// What all of the given `lsof` field lines tell.
pub open spec fn after_fields(lines: Seq<Seq<char>>) -> CwdsRead
    decreases lines.len(),
{
    if lines.len() == 0 {
        CwdsRead { cwds: Map::empty(), current: None }
    } else {
        after_field(after_fields(lines.drop_last()), lines.last())
    }
}

/// The directories by pid in the given `lsof` output.
pub open spec fn cwds_in(text: Seq<char>) -> Map<u32, Seq<char>> {
    after_fields(lines(text)).cwds
}

/// The directories by pid in the directory call's output.
pub open spec fn cwds_in_bytes(bytes: Seq<u8>) -> Map<u32, Seq<char>> {
    after_fields(lossy_lines(bytes)).cwds
}

/// What a map of directories stands for.
pub open spec fn cwds_model(cwds: HashMap<u32, String>) -> Map<u32, Seq<char>> {
    cwds@.map_values(|s: String| s@)
}

fn cwds_in_rows(all: &[&[char]]) -> (r: HashMap<u32, String>)
    ensures
        cwds_model(r) == after_fields(views(all@)).cwds,
{
    let ghost rows = views(all@);
    let mut out: HashMap<u32, String> = HashMap::new();
    let mut current: Option<u32> = None;
    let mut i: usize = 0;
    assert(rows.take(0) =~= seq![]);
    assert(cwds_model(out) =~= Map::empty());
    while i < all.len()
        invariant
            i <= all.len(),
            rows == views(all@),
            after_fields(rows.take(i as int)) == (CwdsRead { cwds: cwds_model(out), current }),
        decreases all.len() - i,
    {
        let line = all[i];
        assert(rows.take(i + 1).drop_last() =~= rows.take(i as int));
        assert(rows.take(i + 1).last() == line@);
        if line.len() > 0 {
            let value = slice_subrange(line, 1, line.len());
            assert(value@ =~= line@.skip(1));
            if line[0] == 'p' {
                current = parse_u32(trim_of(value));
            } else if line[0] == 'n' {
                if let Some(pid) = current {
                    if !out.contains_key(&pid) {
                        let ghost before = cwds_model(out);
                        let path = string_of(trim_of(value));
                        let ghost told = path@;
                        out.insert(pid, path);
                        assert(cwds_model(out) =~= before.insert(pid, told));
                    }
                }
            }
        }
        i += 1;
    }
    assert(rows.take(i as int) =~= rows);
    out
}

/// Parses the text of `lsof -Fpn`: `p<pid>` lines followed by `n<path>` lines.
pub fn parse_cwds_text(text: &str) -> (r: HashMap<u32, String>)
    ensures
        cwds_model(r) == cwds_in(text@),
{
    let chars = chars_of(text);
    cwds_in_rows(lines_of(chars.as_slice()).as_slice())
}

/// Parses `lsof -Fpn` output: each pid's directory, the join key. Garbage is skipped.
pub fn parse_cwds(bytes: &[u8]) -> (r: HashMap<u32, String>)
    ensures
        cwds_model(r) == cwds_in_bytes(bytes@),
        vstd::utf8::valid_utf8(bytes@) ==> cwds_model(r) == cwds_in(
            vstd::utf8::decode_utf8(bytes@),
        ),
{
    let decoded = lossy_lines_of(bytes);
    cwds_in_rows(borrowed_lines(&decoded).as_slice())
}

/// One live Codex TUI process.
#[derive(Debug, PartialEq, Eq)]
pub struct ProcInfo {
    /// The process id.
    pub pid: u32,
    /// The working directory: the join key.
    pub cwd: String,
    /// The controlling terminal.
    pub pts: Option<String>,
    /// The surface the process runs in.
    pub surface_id: Option<String>,
    /// Seconds since the process started.
    pub elapsed_secs: u64,
}

/// What a `ProcInfo` stands for.
pub struct ProcInfoModel {
    pub pid: u32,
    pub cwd: Seq<char>,
    pub pts: Option<Seq<char>>,
    pub surface_id: Option<Seq<char>>,
    pub elapsed_secs: u64,
}

impl View for ProcInfo {
    type V = ProcInfoModel;

    open spec fn view(&self) -> ProcInfoModel {
        ProcInfoModel {
            pid: self.pid,
            cwd: self.cwd@,
            pts: opt_text(self.pts),
            surface_id: opt_text(self.surface_id),
            elapsed_secs: self.elapsed_secs,
        }
    }
}

impl Clone for ProcInfo {
    fn clone(&self) -> (r: Self)
        ensures
            r@ == self@,
    {
        ProcInfo {
            pid: self.pid,
            cwd: self.cwd.clone(),
            pts: self.pts.clone(),
            surface_id: self.surface_id.clone(),
            elapsed_secs: self.elapsed_secs,
        }
    }
}

/// The terminal of a process, as the process table tells it.
pub open spec fn tty_in_table(table: Map<u32, ProcFactsModel>, pid: u32) -> Option<Seq<char>> {
    if table.contains_key(pid) {
        table[pid].tty
    } else {
        None
    }
}

fn tty_in(table: &ProcTable, pid: u32) -> (r: Option<String>)
    ensures
        opt_text(r) == tty_in_table(table_model(*table), pid),
{
    match table.get(&pid) {
        Some(facts) => {
            assert(table_model(*table)[pid] == facts@);
            facts.tty.clone()
        },
        None => None,
    }
}

/// The pids of Codex TUI processes among `ps` lines, in order, where the process table tells
/// which of them own a terminal.
pub open spec fn codex_pids_in_table(
    lines: Seq<Seq<char>>,
    table: Map<u32, ProcFactsModel>,
) -> Seq<u32>
    decreases lines.len(),
{
    if lines.len() == 0 {
        seq![]
    } else {
        let before = codex_pids_in_table(lines.drop_last(), table);
        match process_line(lines.last()) {
            Some((pid, argv)) => if codex_argv(trim(argv)) && tty_in_table(table, pid) is Some {
                before.push(pid)
            } else {
                before
            },
            None => before,
        }
    }
}

/// What to do after the process-discovery call.
#[derive(Debug)]
pub enum AfterProcs {
    /// No Codex is running: there is nothing more to ask.
    NoCodex,
    /// Run `command` for the directories of `pids`.
    AskCwds { pids: Vec<u32>, command: CommandSpec },
}

/// What to do after the process-discovery call told of these processes.
pub open spec fn follows(
    step: AfterProcs,
    rows: Seq<Seq<char>>,
    table: Map<u32, ProcFactsModel>,
) -> bool {
    let found = codex_pids_in_table(rows, table);
    match step {
        AfterProcs::NoCodex => found.len() == 0,
        AfterProcs::AskCwds { pids, command } => found.len() > 0 && pids@ == found && command@
            == cwds_command(found),
    }
}

fn after_rows(all: &[&[char]], table: &ProcTable) -> (r: AfterProcs)
    ensures
        follows(r, views(all@), table_model(*table)),
{
    let tty_of = |pid: u32| -> (tty: Option<String>)
        ensures
            opt_text(tty) == tty_in_table(table_model(*table), pid),
        { tty_in(table, pid) };
    let pids = pids_in_rows(all, &tty_of);
    proof {
        let rows = views(all@);
        let ttys = choose|ttys: Seq<Option<String>>| #[trigger]
            answers(tty_of, rows, ttys) && pids@ == codex_pids(rows, ttys);
        assert forall|i: int| #![trigger rows[i]] 0 <= i < rows.len() implies match process_line(
            rows[i],
        ) {
            Some((pid, _)) => opt_text(ttys[i]) == tty_in_table(table_model(*table), pid),
            None => true,
        } by {}
        lemma_pids_by_table(rows, ttys, table_model(*table));
    }
    if pids.len() == 0 {
        AfterProcs::NoCodex
    } else {
        let command = cwds_spec(pids.as_slice());
        AfterProcs::AskCwds { pids, command }
    }
}

/// Decides what to ask next, from the text of the process-discovery call. That no Codex runs is
/// the common case, and it costs no second call.
pub fn after_procs_text(text: &str, table: &ProcTable) -> (r: AfterProcs)
    ensures
        follows(r, lines(text@), table_model(*table)),
{
    let chars = chars_of(text);
    after_rows(lines_of(chars.as_slice()).as_slice(), table)
}

/// Decides what to ask next, from the output of the process-discovery call.
pub fn after_procs(bytes: &[u8], table: &ProcTable) -> (r: AfterProcs)
    ensures
        follows(r, lossy_lines(bytes@), table_model(*table)),
        vstd::utf8::valid_utf8(bytes@) ==> follows(
            r,
            lines(vstd::utf8::decode_utf8(bytes@)),
            table_model(*table),
        ),
{
    let decoded = lossy_lines_of(bytes);
    after_rows(borrowed_lines(&decoded).as_slice(), table)
}

/// Terminals as the table tells them pick the pids that the table picks.
proof fn lemma_pids_by_table(
    lines: Seq<Seq<char>>,
    ttys: Seq<Option<String>>,
    table: Map<u32, ProcFactsModel>,
)
    requires
        forall|i: int|
            #![trigger lines[i]]
            0 <= i < lines.len() ==> match process_line(lines[i]) {
                Some((pid, _)) => opt_text(ttys[i]) == tty_in_table(table, pid),
                None => true,
            },
    ensures
        codex_pids(lines, ttys) == codex_pids_in_table(lines, table),
    decreases lines.len(),
{
    if lines.len() > 0 {
        let front = lines.drop_last();
        assert forall|i: int| #![trigger front[i]] 0 <= i < front.len() implies match process_line(
            front[i],
        ) {
            Some((pid, _)) => opt_text(ttys[i]) == tty_in_table(table, pid),
            None => true,
        } by {
            assert(front[i] == lines[i]);
        }
        lemma_pids_by_table(front, ttys, table);
        assert(lines.last() == lines[lines.len() - 1]);
    }
}

/// The processes behind `pids`, in order: those in the table whose directory is known.
pub open spec fn infos_of(
    pids: Seq<u32>,
    table: Map<u32, ProcFactsModel>,
    cwds: Map<u32, Seq<char>>,
) -> Seq<ProcInfoModel>
    decreases pids.len(),
{
    if pids.len() == 0 {
        seq![]
    } else {
        let before = infos_of(pids.drop_last(), table, cwds);
        let pid = pids.last();
        if table.contains_key(pid) && cwds.contains_key(pid) {
            before.push(
                ProcInfoModel {
                    pid,
                    cwd: cwds[pid],
                    pts: table[pid].tty,
                    surface_id: table[pid].surface_id,
                    elapsed_secs: table[pid].elapsed_secs,
                },
            )
        } else {
            before
        }
    }
}

/// The live Codex processes: `pids` with what the process table and the directories tell of
/// them. Without a directory there is no join key, and no process.
pub fn live_processes(pids: &[u32], table: &ProcTable, cwds: &HashMap<u32, String>) -> (r: Vec<
    ProcInfo,
>)
    ensures
        views_of(r@) == infos_of(pids@, table_model(*table), cwds_model(*cwds)),
{
    let ghost tm = table_model(*table);
    let ghost cm = cwds_model(*cwds);
    let mut out: Vec<ProcInfo> = Vec::new();
    let mut i: usize = 0;
    assert(pids@.take(0) =~= seq![]);
    assert(views_of(out@) =~= seq![]);
    while i < pids.len()
        invariant
            i <= pids.len(),
            tm == table_model(*table),
            cm == cwds_model(*cwds),
            views_of(out@) == infos_of(pids@.take(i as int), tm, cm),
        decreases pids.len() - i,
    {
        let pid = pids[i];
        assert(pids@.take(i + 1).drop_last() =~= pids@.take(i as int));
        assert(pids@.take(i + 1).last() == pid);
        if let (Some(facts), Some(cwd)) = (table.get(&pid), cwds.get(&pid)) {
            assert(tm[pid] == facts@);
            assert(cm[pid] == cwd@);
            let ghost before = views_of(out@);
            let info = ProcInfo {
                pid,
                cwd: cwd.clone(),
                pts: facts.tty.clone(),
                surface_id: facts.surface_id.clone(),
                elapsed_secs: facts.elapsed_secs,
            };
            let ghost told = info@;
            out.push(info);
            assert(views_of(out@) =~= before.push(told));
        }
        i += 1;
    }
    assert(pids@.take(i as int) =~= pids@);
    out
}

/// One live Codex process's join facts.
#[derive(Debug, PartialEq, Eq)]
pub struct CodexProc {
    /// The working directory.
    pub cwd: String,
    /// When the process started, in epoch seconds.
    pub start_wallclock_secs: u64,
}

/// What a `CodexProc` stands for.
pub struct CodexProcModel {
    pub cwd: Seq<char>,
    pub start_wallclock_secs: u64,
}

impl View for CodexProc {
    type V = CodexProcModel;

    open spec fn view(&self) -> CodexProcModel {
        CodexProcModel { cwd: self.cwd@, start_wallclock_secs: self.start_wallclock_secs }
    }
}

impl Clone for CodexProc {
    fn clone(&self) -> (r: Self)
        ensures
            r@ == self@,
    {
        CodexProc { cwd: self.cwd.clone(), start_wallclock_secs: self.start_wallclock_secs }
    }
}

/// One rollout that a process may be joined to.
#[derive(Debug, PartialEq, Eq)]
pub struct RolloutCandidate {
    /// The rollout's session UUID.
    pub session_id: String,
    /// The directory the session was started in: the join key.
    pub cwd: String,
    /// When the rollout file was last written, in epoch seconds.
    pub mtime_secs: u64,
}

/// What a `RolloutCandidate` stands for.
pub struct CandidateModel {
    pub session_id: Seq<char>,
    pub cwd: Seq<char>,
    pub mtime_secs: u64,
}

impl View for RolloutCandidate {
    type V = CandidateModel;

    open spec fn view(&self) -> CandidateModel {
        CandidateModel {
            session_id: self.session_id@,
            cwd: self.cwd@,
            mtime_secs: self.mtime_secs,
        }
    }
}

impl Clone for RolloutCandidate {
    fn clone(&self) -> (r: Self)
        ensures
            r@ == self@,
    {
        RolloutCandidate {
            session_id: self.session_id.clone(),
            cwd: self.cwd.clone(),
            mtime_secs: self.mtime_secs,
        }
    }
}

/// Whether another process than the `i`-th runs in its directory.
pub open spec fn shares_cwd(cwds: Seq<Seq<char>>, i: int) -> bool {
    exists|j: int| 0 <= j < cwds.len() && j != i && #[trigger] cwds[j] == cwds[i]
}

/// Whether a rollout may be the process's own: same directory, and not older than the process's
/// start less the slack.
pub open spec fn eligible(proc: CodexProcModel, rollout: CandidateModel) -> bool {
    rollout.cwd == proc.cwd && rollout.mtime_secs + JOIN_SLACK_SECS >= proc.start_wallclock_secs
}

/// The index of the newest eligible rollout, of equally new ones the last; -1 where none is
/// eligible.
pub open spec fn newest_eligible(proc: CodexProcModel, rollouts: Seq<CandidateModel>) -> int
    decreases rollouts.len(),
{
    if rollouts.len() == 0 {
        -1
    } else {
        let best = newest_eligible(proc, rollouts.drop_last());
        if eligible(proc, rollouts.last()) && (best < 0 || rollouts[best].mtime_secs
            <= rollouts.last().mtime_secs) {
            rollouts.len() - 1
        } else {
            best
        }
    }
}

/// The directories of the given processes.
pub open spec fn cwds_of(procs: Seq<CodexProcModel>) -> Seq<Seq<char>> {
    Seq::new(procs.len(), |i: int| procs[i].cwd)
}

/// The index of the rollout that the `i`-th process is joined to; -1 for none.
pub open spec fn joined_index(
    procs: Seq<CodexProcModel>,
    rollouts: Seq<CandidateModel>,
    i: int,
) -> int {
    if shares_cwd(cwds_of(procs), i) {
        -1
    } else {
        newest_eligible(procs[i], rollouts)
    }
}

/// The rollout that the `i`-th process is joined to.
pub open spec fn joined(
    procs: Seq<CodexProcModel>,
    rollouts: Seq<CandidateModel>,
    i: int,
) -> Option<CandidateModel> {
    let k = joined_index(procs, rollouts, i);
    if k < 0 {
        None
    } else {
        Some(rollouts[k])
    }
}

/// The model of an optional candidate.
pub open spec fn opt_candidate(c: Option<&RolloutCandidate>) -> Option<CandidateModel> {
    match c {
        Some(c) => Some(c@),
        None => None,
    }
}

/// The newest eligible rollout is one of the list, eligible, and no eligible one is newer, nor
/// is one that comes later as new; where there is none, none is eligible.
pub proof fn newest_is_newest(proc: CodexProcModel, rollouts: Seq<CandidateModel>)
    ensures
        ({
            let k = newest_eligible(proc, rollouts);
            &&& -1 <= k < rollouts.len()
            &&& k >= 0 ==> eligible(proc, rollouts[k])
            &&& k < 0 ==> forall|j: int|
                0 <= j < rollouts.len() ==> !eligible(proc, #[trigger] rollouts[j])
            &&& forall|j: int|
                0 <= j < rollouts.len() && k >= 0 && eligible(proc, #[trigger] rollouts[j])
                    ==> rollouts[j].mtime_secs < rollouts[k].mtime_secs || (
                rollouts[j].mtime_secs == rollouts[k].mtime_secs && j <= k)
        }),
    decreases rollouts.len(),
{
    if rollouts.len() > 0 {
        let front = rollouts.drop_last();
        newest_is_newest(proc, front);
        let k = newest_eligible(proc, rollouts);
        let best = newest_eligible(proc, front);
        assert(best >= 0 ==> front[best] == rollouts[best]);
        assert forall|j: int| 0 <= j < rollouts.len() && eligible(proc, #[trigger] rollouts[j])
            implies k >= 0 && (rollouts[j].mtime_secs < rollouts[k].mtime_secs || (
        rollouts[j].mtime_secs == rollouts[k].mtime_secs && j <= k)) by {
            if j < front.len() {
                assert(front[j] == rollouts[j]);
            }
        }
    }
}

/// Two processes that share a directory are joined to nothing, either of them: which rollout is
/// whose is never guessed.
pub proof fn a_shared_directory_joins_nothing(
    procs: Seq<CodexProcModel>,
    rollouts: Seq<CandidateModel>,
    i: int,
    j: int,
)
    requires
        0 <= i < procs.len(),
        0 <= j < procs.len(),
        i != j,
        procs[i].cwd == procs[j].cwd,
    ensures
        joined(procs, rollouts, i) is None,
        joined(procs, rollouts, j) is None,
{
    let cwds = cwds_of(procs);
    assert(cwds[j] == cwds[i]);
    assert(shares_cwd(cwds, i));
    assert(shares_cwd(cwds, j));
}

/// A process is joined to a rollout of its own directory that is not older than its start less
/// the slack; no other eligible rollout is newer.
pub proof fn a_join_is_the_newest_of_its_directory(
    procs: Seq<CodexProcModel>,
    rollouts: Seq<CandidateModel>,
    i: int,
)
    requires
        0 <= i < procs.len(),
    ensures
        match joined(procs, rollouts, i) {
            Some(c) => {
                &&& c.cwd == procs[i].cwd
                &&& c.mtime_secs + JOIN_SLACK_SECS >= procs[i].start_wallclock_secs
                &&& forall|j: int|
                    0 <= j < rollouts.len() && eligible(procs[i], #[trigger] rollouts[j])
                        ==> rollouts[j].mtime_secs <= c.mtime_secs
            },
            None => shares_cwd(cwds_of(procs), i) || forall|j: int|
                0 <= j < rollouts.len() ==> !eligible(procs[i], #[trigger] rollouts[j]),
        },
{
    newest_is_newest(procs[i], rollouts);
}

fn cwds_in_order<'a>(procs: &'a [CodexProc]) -> (r: Vec<&'a str>)
    ensures
        r@.len() == procs@.len(),
        Seq::new(r@.len(), |k: int| r@[k]@) == cwds_of(views_of(procs@)),
{
    let mut cwds: Vec<&'a str> = Vec::new();
    let mut j: usize = 0;
    while j < procs.len()
        invariant
            j <= procs.len(),
            cwds@.len() == j,
            forall|k: int| 0 <= k < j ==> #[trigger] cwds@[k]@ == procs@[k].cwd@,
        decreases procs.len() - j,
    {
        cwds.push(procs[j].cwd.as_str());
        j += 1;
    }
    assert(Seq::new(cwds@.len(), |k: int| cwds@[k]@) =~= cwds_of(views_of(procs@)));
    cwds
}

fn another_in(cwds: &[&str], i: usize) -> (r: bool)
    requires
        i < cwds.len(),
    ensures
        r == shares_cwd(Seq::new(cwds@.len(), |k: int| cwds@[k]@), i as int),
{
    let ghost all = Seq::new(cwds@.len(), |k: int| cwds@[k]@);
    let mut j: usize = 0;
    while j < cwds.len()
        invariant
            i < cwds.len(),
            j <= cwds.len(),
            all == Seq::new(cwds@.len(), |k: int| cwds@[k]@),
            forall|k: int| 0 <= k < j && k != i ==> #[trigger] all[k] != all[i as int],
        decreases cwds.len() - j,
    {
        if j != i && same_text(cwds[j], cwds[i]) {
            assert(all[j as int] == all[i as int]);
            return true;
        }
        j += 1;
    }
    false
}

fn best_rollout(proc: &CodexProc, rollouts: &[RolloutCandidate]) -> (r: Option<usize>)
    ensures
        match r {
            Some(k) => k == newest_eligible(proc@, views_of(rollouts@)) && k < rollouts.len(),
            None => newest_eligible(proc@, views_of(rollouts@)) < 0,
        },
{
    let ghost all = views_of(rollouts@);
    let mut best: Option<usize> = None;
    let mut i: usize = 0;
    assert(all.take(0) =~= seq![]);
    while i < rollouts.len()
        invariant
            i <= rollouts.len(),
            all == views_of(rollouts@),
            match best {
                Some(k) => k == newest_eligible(proc@, all.take(i as int)) && k < i,
                None => newest_eligible(proc@, all.take(i as int)) < 0,
            },
        decreases rollouts.len() - i,
    {
        let ghost next = all.take(i + 1);
        assert(next.drop_last() =~= all.take(i as int));
        assert(next.last() == rollouts@[i as int]@);
        let earliest = proc.start_wallclock_secs.saturating_sub(JOIN_SLACK_SECS);
        if same_text(rollouts[i].cwd.as_str(), proc.cwd.as_str()) && rollouts[i].mtime_secs
            >= earliest {
            assert(eligible(proc@, next.last()));
            match best {
                Some(k) => {
                    assert(next[k as int] == rollouts@[k as int]@);
                    if rollouts[k].mtime_secs <= rollouts[i].mtime_secs {
                        best = Some(i);
                    }
                },
                None => {
                    best = Some(i);
                },
            }
        }
        i += 1;
    }
    assert(all.take(i as int) =~= all);
    best
}

fn joined_position(procs: &[CodexProc], rollouts: &[RolloutCandidate], i: usize) -> (r: Option<
    usize,
>)
    requires
        i < procs.len(),
    ensures
        match r {
            Some(k) => k == joined_index(views_of(procs@), views_of(rollouts@), i as int) && k
                < rollouts.len(),
            None => joined_index(views_of(procs@), views_of(rollouts@), i as int) < 0,
        },
{
    let cwds = cwds_in_order(procs);
    if another_in(cwds.as_slice(), i) {
        None
    } else {
        best_rollout(&procs[i], rollouts)
    }
}

/// Joins each process (same order in, same order out) to its newest same-directory rollout that
/// is not older than the process's start less the slack. Processes that share a directory are
/// never joined.
pub fn join_rollouts<'a>(procs: &[CodexProc], rollouts: &'a [RolloutCandidate]) -> (r: Vec<
    Option<&'a RolloutCandidate>,
>)
    ensures
        r@.len() == procs@.len(),
        forall|i: int|
            0 <= i < procs@.len() ==> opt_candidate(#[trigger] r@[i]) == joined(
                views_of(procs@),
                views_of(rollouts@),
                i,
            ),
        forall|i: int|
            #![trigger r@[i]]
            0 <= i < procs@.len() && (forall|j: int|
                0 <= j < procs@.len() && j != i ==> (#[trigger] procs@[j]).cwd@ != procs@[i].cwd@)
                ==> match r@[i] {
                Some(c) => c.cwd@ == procs@[i].cwd@ && c.mtime_secs + 600
                    >= procs@[i].start_wallclock_secs,
                None => forall|k: int|
                    0 <= k < rollouts@.len() && (#[trigger] rollouts@[k]).cwd@ == procs@[i].cwd@
                        ==> rollouts@[k].mtime_secs + 600 < procs@[i].start_wallclock_secs,
            },
{
    let mut out: Vec<Option<&'a RolloutCandidate>> = Vec::new();
    let mut i: usize = 0;
    while i < procs.len()
        invariant
            i <= procs.len(),
            out@.len() == i,
            forall|k: int|
                0 <= k < i ==> opt_candidate(#[trigger] out@[k]) == joined(
                    views_of(procs@),
                    views_of(rollouts@),
                    k,
                ),
        decreases procs.len() - i,
    {
        let found: Option<&'a RolloutCandidate> = match joined_position(procs, rollouts, i) {
            Some(k) => Some(&rollouts[k]),
            None => None,
        };
        out.push(found);
        i += 1;
    }
    assert forall|i: int|
        #![trigger out@[i]]
        0 <= i < procs@.len() && (forall|j: int|
            0 <= j < procs@.len() && j != i ==> (#[trigger] procs@[j]).cwd@ != procs@[i].cwd@)
        implies match out@[i] {
        Some(c) => c.cwd@ == procs@[i].cwd@ && c.mtime_secs + 600
            >= procs@[i].start_wallclock_secs,
        None => forall|k: int|
            0 <= k < rollouts@.len() && (#[trigger] rollouts@[k]).cwd@ == procs@[i].cwd@
                ==> rollouts@[k].mtime_secs + 600 < procs@[i].start_wallclock_secs,
    } by {
        let (all, there) = (views_of(procs@), views_of(rollouts@));
        assert forall|j: int| 0 <= j < all.len() && j != i implies (#[trigger] all[j]).cwd
            != all[i].cwd by {
            assert(procs@[j].cwd@ != procs@[i].cwd@);
        }
        a_join_is_owed(all, there, i);
        if out@[i] is None {
            assert forall|k: int|
                0 <= k < rollouts@.len() && (#[trigger] rollouts@[k]).cwd@ == procs@[i].cwd@
                implies rollouts@[k].mtime_secs + 600 < procs@[i].start_wallclock_secs by {
                assert(there[k].cwd == all[i].cwd);
            }
        }
    }
    out
}

/// Whether a file of this name, in a rollout directory, is a rollout.
pub open spec fn names_rollout(name: Seq<char>) -> bool {
    starts_with(name, "rollout-"@) && ends_with(name, ".jsonl"@)
}

/// Whether a file of this name, in a rollout directory, is a rollout.
pub fn is_rollout(name: &str) -> (r: bool)
    ensures
        r == names_rollout(name@),
{
    let chars = chars_of(name);
    after_prefix_of(chars.as_slice(), "rollout-").is_some() && text_ends_with(
        chars.as_slice(),
        ".jsonl",
    )
}

/// Where the tail of a rollout of `len` bytes begins.
pub open spec fn tail_start(len: u64) -> u64 {
    if len > TAIL_BYTES {
        (len - TAIL_BYTES) as u64
    } else {
        0
    }
}

/// Where the tail of a rollout of `len` bytes begins.
pub fn tail_offset(len: u64) -> (r: u64)
    ensures
        r == tail_start(len),
        r == if len > TAIL_BYTES {
            len - TAIL_BYTES
        } else {
            0
        },
{
    len.saturating_sub(TAIL_BYTES)
}

/// One rollout file of a sweep: its place in the listing, and when it was last written.
#[derive(Debug, Clone, Copy, PartialEq, Eq, Structural)]
pub struct RolloutFile {
    pub index: usize,
    pub mtime_secs: u64,
}

impl View for RolloutFile {
    type V = RolloutFile;

    open spec fn view(&self) -> RolloutFile {
        *self
    }
}

/// Rollout files rank by when they were last written, the newest first. Their names tell when a
/// session started, which says nothing of how fresh its rollout is.
impl Ranked for RolloutFile {
    open spec fn le(a: RolloutFile, b: RolloutFile) -> bool {
        a.mtime_secs >= b.mtime_secs
    }

    proof fn le_total(a: RolloutFile, b: RolloutFile) {
    }

    proof fn le_transitive(a: RolloutFile, b: RolloutFile, c: RolloutFile) {
    }

    fn not_after(&self, other: &Self) -> (r: bool) {
        self.mtime_secs >= other.mtime_secs
    }
}

/// The listed files that are still there, in the order of the listing.
pub open spec fn files_there(mtimes: Seq<Option<u64>>) -> Seq<RolloutFile>
    decreases mtimes.len(),
{
    if mtimes.len() == 0 {
        seq![]
    } else {
        let before = files_there(mtimes.drop_last());
        match mtimes.last() {
            Some(mtime_secs) => before.push(
                RolloutFile { index: (mtimes.len() - 1) as usize, mtime_secs },
            ),
            None => before,
        }
    }
}

/// `kept` are the first of the listed files, sorted by when they were last written, as many as
/// one sweep reads.
pub open spec fn are_newest(kept: Seq<RolloutFile>, mtimes: Seq<Option<u64>>) -> bool {
    exists|sorted: Seq<RolloutFile>| #[trigger]
        stable_sort_of::<RolloutFile>(files_there(mtimes), sorted) && kept == capped(sorted)
}

/// As many of `files` as one sweep reads, from the front.
pub open spec fn capped(files: Seq<RolloutFile>) -> Seq<RolloutFile> {
    if files.len() <= MAX_ROLLOUTS {
        files
    } else {
        files.take(MAX_ROLLOUTS as int)
    }
}

/// The rollout files to read, newest first, from when each listed file was last written; `None`
/// for one that vanished.
pub fn newest_files(mtimes: &[Option<u64>]) -> (r: Vec<RolloutFile>)
    ensures
        are_newest(r@, mtimes@),
{
    let mut files: Vec<RolloutFile> = Vec::new();
    let mut i: usize = 0;
    assert(mtimes@.take(0) =~= seq![]);
    assert(files@ =~= seq![]);
    while i < mtimes.len()
        invariant
            i <= mtimes.len(),
            files@ == files_there(mtimes@.take(i as int)),
        decreases mtimes.len() - i,
    {
        assert(mtimes@.take(i + 1).drop_last() =~= mtimes@.take(i as int));
        assert(mtimes@.take(i + 1).last() == mtimes@[i as int]);
        if let Some(mtime_secs) = mtimes[i] {
            files.push(RolloutFile { index: i, mtime_secs });
        }
        i += 1;
    }
    assert(mtimes@.take(i as int) =~= mtimes@);
    assert(views_of(files@) =~= files_there(mtimes@));
    stable_sort(files.as_mut_slice());
    let ghost sorted = files@;
    assert(views_of(files@) =~= sorted);
    if files.len() > MAX_ROLLOUTS {
        files.truncate(MAX_ROLLOUTS);
    }
    assert(files@ =~= capped(sorted));
    files
}

/// No file that was left out is newer than one that was kept, and none is left out while there
/// is room: a rollout that is still written to never ages out by its name.
pub proof fn no_newer_file_is_left_out(mtimes: Seq<Option<u64>>, sorted: Seq<RolloutFile>)
    requires
        stable_sort_of::<RolloutFile>(files_there(mtimes), sorted),
    ensures
        capped(sorted).len() < sorted.len() ==> capped(sorted).len() == MAX_ROLLOUTS,
        forall|i: int, j: int|
            0 <= i < capped(sorted).len() <= j < sorted.len() ==> (#[trigger] capped(
                sorted,
            )[i]).mtime_secs >= (#[trigger] sorted[j]).mtime_secs,
{
    assert forall|i: int, j: int|
        0 <= i < capped(sorted).len() <= j < sorted.len() implies (#[trigger] capped(
        sorted,
    )[i]).mtime_secs >= (#[trigger] sorted[j]).mtime_secs by {
        assert(capped(sorted)[i] == sorted[i]);
        assert(RolloutFile::le(sorted[i], sorted[j]));
    }
}

/// The rollouts that processes may be joined to, and for each the listed file that holds it:
/// files whose first line names a session, in order.
pub open spec fn candidates_of(
    files: Seq<RolloutFile>,
    metas: Seq<Option<SessionMetaModel>>,
) -> Seq<(CandidateModel, usize)>
    decreases files.len(),
{
    if files.len() == 0 {
        seq![]
    } else {
        let before = candidates_of(files.drop_last(), metas);
        let k = files.len() - 1;
        if k < metas.len() && metas[k] is Some {
            let meta = metas[k]->0;
            before.push(
                (
                    CandidateModel {
                        session_id: meta.id,
                        cwd: meta.cwd,
                        mtime_secs: files.last().mtime_secs,
                    },
                    files.last().index,
                ),
            )
        } else {
            before
        }
    }
}

/// The models of optional first lines.
pub open spec fn opt_metas(metas: Seq<Option<SessionMeta>>) -> Seq<Option<SessionMetaModel>> {
    Seq::new(
        metas.len(),
        |i: int|
            match metas[i] {
                Some(m) => Some(m@),
                None => None,
            },
    )
}

/// Candidates with the files that hold them.
pub open spec fn with_files(
    candidates: Seq<RolloutCandidate>,
    files: Seq<usize>,
) -> Seq<(CandidateModel, usize)> {
    Seq::new(candidates.len(), |i: int| (candidates[i]@, files[i]))
}

/// Makes join candidates of rollout files and their first lines (parallel slices): the
/// candidates, and for each the listed file that holds it. A file whose first line names no
/// session is skipped.
pub fn candidates(files: &[RolloutFile], metas: &[Option<SessionMeta>]) -> (r: (
    Vec<RolloutCandidate>,
    Vec<usize>,
))
    ensures
        r.0@.len() == r.1@.len(),
        with_files(r.0@, r.1@) == candidates_of(files@, opt_metas(metas@)),
{
    let ghost said = opt_metas(metas@);
    let mut out: Vec<RolloutCandidate> = Vec::new();
    let mut held: Vec<usize> = Vec::new();
    let mut i: usize = 0;
    assert(files@.take(0) =~= seq![]);
    assert(with_files(out@, held@) =~= seq![]);
    while i < files.len()
        invariant
            i <= files.len(),
            said == opt_metas(metas@),
            out@.len() == held@.len(),
            with_files(out@, held@) == candidates_of(files@.take(i as int), said),
        decreases files.len() - i,
    {
        assert(files@.take(i + 1).drop_last() =~= files@.take(i as int));
        assert(files@.take(i + 1).last() == files@[i as int]);
        if i < metas.len() {
            if let Some(meta) = &metas[i] {
                let ghost before = with_files(out@, held@);
                let candidate = RolloutCandidate {
                    session_id: meta.id.clone(),
                    cwd: meta.cwd.clone(),
                    mtime_secs: files[i].mtime_secs,
                };
                let ghost told = candidate@;
                out.push(candidate);
                held.push(files[i].index);
                assert(with_files(out@, held@) =~= before.push((told, files@[i as int].index)));
            }
        }
        i += 1;
    }
    assert(files@.take(i as int) =~= files@);
    (out, held)
}

/// The index of the last candidate of the given session; -1 where there is none.
pub open spec fn last_of_session(candidates: Seq<CandidateModel>, session_id: Seq<char>) -> int
    decreases candidates.len(),
{
    if candidates.len() == 0 {
        -1
    } else if candidates.last().session_id == session_id {
        candidates.len() - 1
    } else {
        last_of_session(candidates.drop_last(), session_id)
    }
}

/// The candidate whose file's tail tells of the given session: of several the last.
pub fn tail_source(candidates: &[RolloutCandidate], session_id: &str) -> (r: Option<usize>)
    ensures
        match r {
            Some(k) => k == last_of_session(views_of(candidates@), session_id@) && k
                < candidates.len(),
            None => last_of_session(views_of(candidates@), session_id@) < 0,
        },
{
    let ghost all = views_of(candidates@);
    let mut n: usize = candidates.len();
    assert(all.take(n as int) =~= all);
    while n > 0
        invariant
            n <= candidates.len(),
            all == views_of(candidates@),
            last_of_session(all, session_id@) == last_of_session(all.take(n as int), session_id@),
        decreases n,
    {
        assert(all.take(n as int).last() == candidates@[n - 1]@);
        assert(all.take(n as int).drop_last() =~= all.take(n - 1));
        if same_text(candidates[n - 1].session_id.as_str(), session_id) {
            return Some(n - 1);
        }
        n -= 1;
    }
    None
}

/// The join facts of a process at the time `now`: it started as long ago as it has run.
pub open spec fn join_facts(now_secs: u64, info: ProcInfoModel) -> CodexProcModel {
    CodexProcModel {
        cwd: info.cwd,
        start_wallclock_secs: if now_secs >= info.elapsed_secs {
            (now_secs - info.elapsed_secs) as u64
        } else {
            0
        },
    }
}

/// The join facts of each process.
pub open spec fn all_join_facts(now_secs: u64, infos: Seq<ProcInfoModel>) -> Seq<CodexProcModel> {
    Seq::new(infos.len(), |i: int| join_facts(now_secs, infos[i]))
}

/// The age of a file last written at `mtime`; unknown for a time still to come.
pub open spec fn age_at(now_secs: u64, mtime_secs: u64) -> Option<u64> {
    if now_secs >= mtime_secs {
        Some((now_secs - mtime_secs) as u64)
    } else {
        None
    }
}

/// The row of a process that is joined to no rollout: a placeholder, whose name tells a shared
/// directory from a session without a prompt.
pub open spec fn unjoined_row(
    info: ProcInfoModel,
    shares_cwd: bool,
    branch: Option<Seq<char>>,
    surfaces: Seq<SurfaceModel>,
) -> RowModel {
    let pane = matched_pane(info.surface_id, surfaces);
    RowModel {
        session_id: "codex-pid-"@ + decimal(info.pid as nat),
        name: if shares_cwd {
            "codex — session ambiguous"@
        } else {
            "codex — no prompt yet"@
        },
        account: Some("codex"@),
        status: Status::Idle,
        cwd: info.cwd,
        context_tokens: None,
        ctx_pct: None,
        secs_since_append: None,
        stream: stream_of(pane),
        branch,
        pane,
        pts: highlight_target(info.surface_id, info.pts),
    }
}

/// The row of a process that is joined to a rollout, from the facts of the rollout's tail.
pub open spec fn joined_row(
    now_secs: u64,
    info: ProcInfoModel,
    candidate: CandidateModel,
    facts: RolloutFactsModel,
    branch: Option<Seq<char>>,
    surfaces: Seq<SurfaceModel>,
) -> RowModel {
    let pane = matched_pane(info.surface_id, surfaces);
    RowModel {
        session_id: candidate.session_id,
        name: match facts.name {
            Some(name) => name,
            None => "codex (untitled)"@,
        },
        account: Some("codex"@),
        status: facts.status,
        cwd: info.cwd,
        context_tokens: facts.tokens,
        ctx_pct: facts.ctx_pct,
        secs_since_append: age_at(now_secs, candidate.mtime_secs),
        stream: stream_of(pane),
        branch,
        pane,
        pts: highlight_target(info.surface_id, info.pts),
    }
}

/// The row of one process, joined or not, with the bytes of its rollout's tail.
pub open spec fn codex_row(
    now_secs: u64,
    info: ProcInfoModel,
    matched: Option<CandidateModel>,
    tail: Seq<u8>,
    branch: Option<Seq<char>>,
    shares_cwd: bool,
    surfaces: Seq<SurfaceModel>,
) -> RowModel {
    match matched {
        Some(candidate) => joined_row(
            now_secs,
            info,
            candidate,
            rollout_facts(tail_lines(tail), age_at(now_secs, candidate.mtime_secs)),
            branch,
            surfaces,
        ),
        None => unjoined_row(info, shares_cwd, branch, surfaces),
    }
}

/// Builds the placeholder row of a process that is joined to no rollout.
pub fn build_unjoined_row(
    info: &ProcInfo,
    shares_cwd: bool,
    branch: Option<String>,
    surfaces: &[Surface],
) -> (r: SessionRow)
    ensures
        r@ == unjoined_row(info@, shares_cwd, opt_text(branch), views_of(surfaces@)),
{
    let pane = match_surface(borrowed(&info.surface_id), surfaces);
    let mut session_id = "codex-pid-".to_owned();
    session_id.append(decimal_text(info.pid as u64).as_str());
    SessionRow {
        session_id,
        name: (if shares_cwd {
            "codex — session ambiguous"
        } else {
            "codex — no prompt yet"
        }).to_owned(),
        account: Some("codex".to_owned()),
        status: Status::Idle,
        cwd: info.cwd.clone(),
        context_tokens: None,
        ctx_pct: None,
        secs_since_append: None,
        stream: pane_stream(&pane),
        branch,
        pane,
        pts: highlightable(&info.surface_id, &info.pts),
    }
}

/// Builds the row of a process that is joined to a rollout, from the facts of the rollout's tail.
/// The rollout exists and the process runs, so a row without a prompt in its tail is untitled; it
/// never claims that there is no prompt.
pub fn build_joined_row(
    now_secs: u64,
    info: &ProcInfo,
    candidate: &RolloutCandidate,
    facts: RolloutFacts,
    branch: Option<String>,
    surfaces: &[Surface],
) -> (r: SessionRow)
    ensures
        r@ == joined_row(
            now_secs,
            info@,
            candidate@,
            facts@,
            opt_text(branch),
            views_of(surfaces@),
        ),
{
    let pane = match_surface(borrowed(&info.surface_id), surfaces);
    SessionRow {
        session_id: candidate.session_id.clone(),
        name: match facts.name {
            Some(name) => name,
            None => "codex (untitled)".to_owned(),
        },
        account: Some("codex".to_owned()),
        status: facts.status,
        cwd: info.cwd.clone(),
        context_tokens: facts.tokens,
        ctx_pct: facts.ctx_pct,
        secs_since_append: now_secs.checked_sub(candidate.mtime_secs),
        stream: pane_stream(&pane),
        branch,
        pane,
        pts: highlightable(&info.surface_id, &info.pts),
    }
}

/// Builds one row from a live process and its rollout, if it is joined to one. `shares_cwd` tells
/// the two placeholder names apart.
pub fn build_row(
    now_secs: u64,
    info: &ProcInfo,
    matched: Option<&RolloutCandidate>,
    tail: &[u8],
    branch: Option<String>,
    shares_cwd: bool,
    surfaces: &[Surface],
) -> (r: SessionRow)
    ensures
        r@ == codex_row(
            now_secs,
            info@,
            opt_candidate(matched),
            tail@,
            opt_text(branch),
            shares_cwd,
            views_of(surfaces@),
        ),
{
    match matched {
        Some(candidate) => {
            let facts = fold_rollout_tail(tail, now_secs.checked_sub(candidate.mtime_secs));
            build_joined_row(now_secs, info, candidate, facts, branch, surfaces)
        },
        None => build_unjoined_row(info, shares_cwd, branch, surfaces),
    }
}

/// The `i`-th tail; empty where the list is shorter.
pub open spec fn tail_at(tails: Seq<Vec<u8>>, i: int) -> Seq<u8> {
    if i < tails.len() {
        tails[i]@
    } else {
        seq![]
    }
}

/// The row of the `i`-th process.
pub open spec fn scanned_row(
    now_secs: u64,
    infos: Seq<ProcInfoModel>,
    candidates: Seq<CandidateModel>,
    tails: Seq<Vec<u8>>,
    branches: Seq<Option<String>>,
    surfaces: Seq<SurfaceModel>,
    i: int,
) -> RowModel {
    let procs = all_join_facts(now_secs, infos);
    codex_row(
        now_secs,
        infos[i],
        joined(procs, candidates, i),
        tail_at(tails, i),
        branch_at(branches, i),
        shares_cwd(cwds_of(procs), i),
        surfaces,
    )
}

fn facts_to_join(now_secs: u64, infos: &[ProcInfo]) -> (r: Vec<CodexProc>)
    ensures
        views_of(r@) == all_join_facts(now_secs, views_of(infos@)),
{
    let mut procs: Vec<CodexProc> = Vec::new();
    let mut i: usize = 0;
    while i < infos.len()
        invariant
            i <= infos.len(),
            procs@.len() == i,
            forall|k: int|
                0 <= k < i ==> #[trigger] procs@[k]@ == join_facts(now_secs, infos@[k]@),
        decreases infos.len() - i,
    {
        procs.push(
            CodexProc {
                cwd: infos[i].cwd.clone(),
                start_wallclock_secs: now_secs.saturating_sub(infos[i].elapsed_secs),
            },
        );
        i += 1;
    }
    assert(views_of(procs@) =~= all_join_facts(now_secs, views_of(infos@)));
    procs
}

/// For each process, the candidate whose file's tail its row is folded from; `None` where the
/// process is joined to nothing.
pub fn tails_to_read(now_secs: u64, infos: &[ProcInfo], candidates: &[RolloutCandidate]) -> (r: Vec<
    Option<usize>,
>)
    ensures
        r@.len() == infos@.len(),
        forall|i: int|
            0 <= i < infos@.len() ==> match joined(
                all_join_facts(now_secs, views_of(infos@)),
                views_of(candidates@),
                i,
            ) {
                Some(c) => (#[trigger] r@[i]) matches Some(k) && k < candidates@.len() && k
                    == last_of_session(views_of(candidates@), c.session_id),
                None => r@[i] is None,
            },
{
    let procs = facts_to_join(now_secs, infos);
    let all = join_rollouts(procs.as_slice(), candidates);
    let mut out: Vec<Option<usize>> = Vec::new();
    let mut i: usize = 0;
    while i < all.len()
        invariant
            i <= all.len(),
            all@.len() == infos@.len() == procs@.len(),
            views_of(procs@) == all_join_facts(now_secs, views_of(infos@)),
            forall|k: int|
                0 <= k < procs@.len() ==> opt_candidate(#[trigger] all@[k]) == joined(
                    views_of(procs@),
                    views_of(candidates@),
                    k,
                ),
            out@.len() == i,
            forall|j: int|
                0 <= j < i ==> match joined(
                    all_join_facts(now_secs, views_of(infos@)),
                    views_of(candidates@),
                    j,
                ) {
                    Some(c) => (#[trigger] out@[j]) matches Some(k) && k < candidates@.len() && k
                        == last_of_session(views_of(candidates@), c.session_id),
                    None => out@[j] is None,
                },
        decreases all.len() - i,
    {
        let source = match all[i] {
            Some(c) => {
                proof {
                    let rollouts = views_of(candidates@);
                    newest_is_newest(views_of(procs@)[i as int], rollouts);
                    lemma_listed_session(
                        rollouts,
                        joined_index(views_of(procs@), rollouts, i as int),
                    );
                }
                tail_source(candidates, c.session_id.as_str())
            },
            None => None,
        };
        out.push(source);
        i += 1;
    }
    out
}

/// A session that a candidate tells of is found among the candidates.
proof fn lemma_listed_session(candidates: Seq<CandidateModel>, k: int)
    requires
        0 <= k < candidates.len(),
    ensures
        last_of_session(candidates, candidates[k].session_id) >= k,
    decreases candidates.len(),
{
    if k < candidates.len() - 1 && candidates.last().session_id != candidates[k].session_id {
        assert(candidates.drop_last()[k] == candidates[k]);
        lemma_listed_session(candidates.drop_last(), k);
    }
}

/// The rows of the live Codex processes at the time `now_secs`, in their order: each joined to a
/// rollout among `candidates`, folded from its tail and matched against `surfaces`. Tails and
/// branches are parallel to the processes.
pub fn scan(
    now_secs: u64,
    proc_infos: &[ProcInfo],
    candidates: &[RolloutCandidate],
    tails: &[Vec<u8>],
    branches: &[Option<String>],
    surfaces: &[Surface],
) -> (r: Vec<SessionRow>)
    ensures
        r@.len() == proc_infos@.len(),
        views_of(r@) == Seq::new(
            proc_infos@.len(),
            |i: int|
                scanned_row(
                    now_secs,
                    views_of(proc_infos@),
                    views_of(candidates@),
                    tails@,
                    branches@,
                    views_of(surfaces@),
                    i,
                ),
        ),
{
    let procs = facts_to_join(now_secs, proc_infos);
    let ghost pm = views_of(procs@);
    let all = join_rollouts(procs.as_slice(), candidates);
    let cwds = cwds_in_order(procs.as_slice());
    let mut rows: Vec<SessionRow> = Vec::new();
    let mut i: usize = 0;
    while i < proc_infos.len()
        invariant
            i <= proc_infos.len(),
            all@.len() == proc_infos@.len() == procs@.len() == cwds@.len(),
            pm == views_of(procs@),
            pm == all_join_facts(now_secs, views_of(proc_infos@)),
            Seq::new(cwds@.len(), |k: int| cwds@[k]@) == cwds_of(pm),
            forall|k: int|
                0 <= k < procs@.len() ==> opt_candidate(#[trigger] all@[k]) == joined(
                    pm,
                    views_of(candidates@),
                    k,
                ),
            rows@.len() == i,
            forall|k: int|
                0 <= k < i ==> #[trigger] rows@[k]@ == scanned_row(
                    now_secs,
                    views_of(proc_infos@),
                    views_of(candidates@),
                    tails@,
                    branches@,
                    views_of(surfaces@),
                    k,
                ),
        decreases proc_infos.len() - i,
    {
        let nothing: Vec<u8> = Vec::new();
        let tail = if i < tails.len() {
            &tails[i]
        } else {
            &nothing
        };
        assert(tail@ =~= tail_at(tails@, i as int));
        let branch = if i < branches.len() {
            branches[i].clone()
        } else {
            None
        };
        let shares = another_in(cwds.as_slice(), i);
        rows.push(
            build_row(
                now_secs,
                &proc_infos[i],
                all[i],
                tail.as_slice(),
                branch,
                shares,
                surfaces,
            ),
        );
        i += 1;
    }
    assert(views_of(rows@) =~= Seq::new(
        proc_infos@.len(),
        |i: int|
            scanned_row(
                now_secs,
                views_of(proc_infos@),
                views_of(candidates@),
                tails@,
                branches@,
                views_of(surfaces@),
                i,
            ),
    ));
    rows
}

/// Every process has its row: one in a directory of its own without a rollout is shown as a
/// session without a prompt, one that shares its directory as ambiguous, and neither is shown as
/// anything but idle.
pub proof fn unjoined_processes_are_placeholders(
    now_secs: u64,
    infos: Seq<ProcInfoModel>,
    candidates: Seq<CandidateModel>,
    tails: Seq<Vec<u8>>,
    branches: Seq<Option<String>>,
    surfaces: Seq<SurfaceModel>,
    i: int,
)
    requires
        0 <= i < infos.len(),
        joined(all_join_facts(now_secs, infos), candidates, i) is None,
    ensures
        ({
            let row = scanned_row(now_secs, infos, candidates, tails, branches, surfaces, i);
            &&& row.status == Status::Idle
            &&& row.name == if exists|j: int|
                0 <= j < infos.len() && j != i && (#[trigger] infos[j]).cwd == infos[i].cwd {
                "codex — session ambiguous"@
            } else {
                "codex — no prompt yet"@
            }
        }),
{
    let cwds = cwds_of(all_join_facts(now_secs, infos));
    if shares_cwd(cwds, i) {
        let j = choose|j: int| 0 <= j < cwds.len() && j != i && #[trigger] cwds[j] == cwds[i];
        assert(infos[j].cwd == infos[i].cwd);
    }
    if exists|j: int| 0 <= j < infos.len() && j != i && (#[trigger] infos[j]).cwd == infos[i].cwd {
        let j = choose|j: int|
            0 <= j < infos.len() && j != i && (#[trigger] infos[j]).cwd == infos[i].cwd;
        assert(cwds[j] == cwds[i]);
    }
}

/// A `ps` row that tells of no Codex process makes no difference, wherever it stands: garbage, the
/// node shim and commands with arguments included.
pub proof fn other_processes_make_no_difference(
    before: Seq<Seq<char>>,
    line: Seq<char>,
    after: Seq<Seq<char>>,
    table: Map<u32, ProcFactsModel>,
)
    requires
        process_line(line) matches Some((_, argv)) ==> !codex_argv(trim(argv)),
    ensures
        codex_pids_in_table(before.push(line) + after, table) == codex_pids_in_table(
            before + after,
            table,
        ),
    decreases after.len(),
{
    let (a, b) = (before.push(line) + after, before + after);
    if after.len() == 0 {
        assert(a.drop_last() =~= before);
        assert(b =~= before);
    } else {
        other_processes_make_no_difference(before, line, after.drop_last(), table);
        assert(a.drop_last() =~= before.push(line) + after.drop_last());
        assert(b.drop_last() =~= before + after.drop_last());
    }
}

proof fn lemma_pids_of_sum(
    a: Seq<Seq<char>>,
    b: Seq<Seq<char>>,
    table: Map<u32, ProcFactsModel>,
)
    ensures
        codex_pids_in_table(a + b, table) == codex_pids_in_table(a, table) + codex_pids_in_table(
            b,
            table,
        ),
    decreases b.len(),
{
    let (pa, pb) = (codex_pids_in_table(a, table), codex_pids_in_table(b, table));
    if b.len() == 0 {
        assert(a + b =~= a);
        assert(pa + pb =~= pa);
    } else {
        lemma_pids_of_sum(a, b.drop_last(), table);
        assert((a + b).drop_last() =~= a + b.drop_last());
        assert(codex_pids_in_table(a + b, table) =~= pa + pb);
    }
}

/// Process rows are read independently and in order: after whole lines, whatever bytes they hold,
/// the Codex processes among what follows are those it would tell of alone.
pub proof fn processes_are_read_independently(
    a: Seq<u8>,
    b: Seq<u8>,
    table: Map<u32, ProcFactsModel>,
)
    requires
        whole_lines(a),
    ensures
        codex_pids_in_table(lossy_lines(a + b), table) == codex_pids_in_table(lossy_lines(a), table)
            + codex_pids_in_table(lossy_lines(b), table),
{
    lines_decode_independently(a, b);
    lemma_pids_of_sum(lossy_lines(a), lossy_lines(b), table);
}

/// An `lsof` line that names neither a process nor a directory makes no difference, wherever it
/// stands.
pub proof fn other_fields_make_no_difference(
    before: Seq<Seq<char>>,
    line: Seq<char>,
    after: Seq<Seq<char>>,
)
    requires
        line.len() == 0 || (line[0] != 'p' && line[0] != 'n'),
    ensures
        after_fields(before.push(line) + after) == after_fields(before + after),
    decreases after.len(),
{
    let (a, b) = (before.push(line) + after, before + after);
    if after.len() == 0 {
        assert(a.drop_last() =~= before);
        assert(b =~= before);
    } else {
        other_fields_make_no_difference(before, line, after.drop_last());
        assert(a.drop_last() =~= before.push(line) + after.drop_last());
        assert(b.drop_last() =~= before + after.drop_last());
    }
}

/// A process that shares its directory with no other is joined to the newest rollout of that
/// directory, of equally new ones the last, as long as that was not last written more than ten
/// minutes before the process started; and to nothing only where every rollout of the directory
/// was.
pub proof fn a_join_is_owed(
    procs: Seq<CodexProcModel>,
    rollouts: Seq<CandidateModel>,
    i: int,
)
    requires
        0 <= i < procs.len(),
        forall|j: int|
            0 <= j < procs.len() && j != i ==> (#[trigger] procs[j]).cwd != procs[i].cwd,
    ensures
        match joined(procs, rollouts, i) {
            Some(c) => exists|k: int|
                #![trigger rollouts[k]]
                0 <= k < rollouts.len() && rollouts[k] == c && c.cwd == procs[i].cwd
                    && c.mtime_secs + 600 >= procs[i].start_wallclock_secs && forall|j: int|
                    0 <= j < rollouts.len() && (#[trigger] rollouts[j]).cwd == procs[i].cwd
                        ==> rollouts[j].mtime_secs < c.mtime_secs || (rollouts[j].mtime_secs
                        == c.mtime_secs && j <= k),
            None => forall|j: int|
                0 <= j < rollouts.len() && (#[trigger] rollouts[j]).cwd == procs[i].cwd
                    ==> rollouts[j].mtime_secs + 600 < procs[i].start_wallclock_secs,
        },
{
    let cwds = cwds_of(procs);
    assert(!shares_cwd(cwds, i)) by {
        assert forall|j: int| 0 <= j < cwds.len() && j != i implies #[trigger] cwds[j]
            != cwds[i] by {
            assert(cwds[j] == procs[j].cwd);
        }
    }
    let proc = procs[i];
    newest_is_newest(proc, rollouts);
    let k = newest_eligible(proc, rollouts);
    if k >= 0 {
        assert(rollouts[k].cwd == proc.cwd);
        assert forall|j: int|
            0 <= j < rollouts.len() && (#[trigger] rollouts[j]).cwd == proc.cwd implies
            rollouts[j].mtime_secs < rollouts[k].mtime_secs || (rollouts[j].mtime_secs
            == rollouts[k].mtime_secs && j <= k) by {
            if !eligible(proc, rollouts[j]) {
                assert(rollouts[j].mtime_secs < rollouts[k].mtime_secs);
            }
        }
    } else {
        assert forall|j: int|
            0 <= j < rollouts.len() && (#[trigger] rollouts[j]).cwd == proc.cwd implies
            rollouts[j].mtime_secs + 600 < proc.start_wallclock_secs by {
            assert(!eligible(proc, rollouts[j]));
        }
    }
}

/// A rollout written to since the process started is always reason for a join.
pub proof fn a_fresh_rollout_is_joined(
    procs: Seq<CodexProcModel>,
    rollouts: Seq<CandidateModel>,
    i: int,
    r: int,
)
    requires
        0 <= i < procs.len(),
        forall|j: int|
            0 <= j < procs.len() && j != i ==> (#[trigger] procs[j]).cwd != procs[i].cwd,
        0 <= r < rollouts.len(),
        rollouts[r].cwd == procs[i].cwd,
        rollouts[r].mtime_secs >= procs[i].start_wallclock_secs,
    ensures
        joined(procs, rollouts, i) is Some,
        joined(procs, rollouts, i)->0.mtime_secs >= rollouts[r].mtime_secs,
{
    a_join_is_owed(procs, rollouts, i);
}

/// A single word is the interactive Codex's command line exactly where it is `codex`, or a path
/// whose last segment is; a command line of more words, or of none, never is.
pub proof fn only_a_bare_codex_is_a_tui(word: Seq<char>, gap: Seq<char>, more: Seq<char>)
    requires
        is_word(word),
        gap.len() > 0,
        forall|i: int| 0 <= i < gap.len() ==> is_ascii_white(#[trigger] gap[i]),
    ensures
        codex_argv(word) <==> word == "codex"@ || exists|dir: Seq<char>|
            word == #[trigger] (dir + "/codex"@),
        words(more).len() > 0 ==> !codex_argv(word + gap + more),
        !codex_argv(gap),
        !codex_argv(Seq::empty()),
{
    a_word_is_its_only_word(word);
    white_space_parts_words(word, gap, more);
    white_space_has_no_words(gap);
    assert(words(Seq::<char>::empty()) =~= Seq::<Seq<char>>::empty());
    reveal_strlit("codex");
    reveal_strlit("/codex");
    let n = last_position(word, '/');
    lemma_basename(word);
    if codex_argv(word) && n >= 0 {
        let tail = word.skip(n + 1);
        assert(tail == "codex"@);
        assert(word =~= word.take(n) + seq!['/'] + tail);
        assert(seq!['/'] + tail =~= "/codex"@);
        assert(word =~= word.take(n) + "/codex"@);
    }
    if exists|dir: Seq<char>| word == #[trigger] (dir + "/codex"@) {
        let dir = choose|dir: Seq<char>| word == #[trigger] (dir + "/codex"@);
        nothing_follows_the_last(dir, '/', "codex"@);
        assert(word =~= dir + seq!['/'] + "codex"@);
        assert(word.skip(dir.len() as int + 1) =~= "codex"@);
    }
    if word == "codex"@ {
        nothing_follows_the_last(Seq::<char>::empty(), '/', "codex"@);
        assert(word.skip(0) =~= word);
    }
}

proof fn lemma_basename(path: Seq<char>)
    ensures
        -1 <= last_position(path, '/') < path.len(),
        last_position(path, '/') >= 0 ==> path[last_position(path, '/')] == '/',
        last_position(path, '/') < 0 ==> basename(path) == path,
    decreases path.len(),
{
    if path.len() > 0 && path.last() != '/' {
        lemma_basename(path.drop_last());
    }
    if last_position(path, '/') < 0 {
        assert(path.skip(0) =~= path);
    }
}

/// A `ps` row is read as its pid and its whole command line, however the pid is padded.
pub proof fn a_process_row_is_read_whole(
    lead: Seq<char>,
    pid: u32,
    gap: char,
    argv: Seq<char>,
)
    requires
        all_white(lead),
        is_white(gap),
    ensures
        process_line(lead + decimal(pid as nat) + seq![gap] + argv) == Some((pid, argv)),
        process_line(lead + decimal(pid as nat)) is None,
{
    let number = decimal(pid as nat);
    lemma_decimal_digits(pid as nat);
    decimal_reads_back(pid);
    assert forall|i: int| 0 <= i < number.len() implies !is_white(#[trigger] number[i]) by {
        assert(is_digit(number[i]));
    }
    let n = number.len() as int;
    let l = number + seq![gap] + argv;
    let line = lead + number + seq![gap] + argv;
    assert(line =~= lead + l);
    lemma_trim_start_skips(lead, l);
    assert(l[0] == number[0]);
    assert(!is_white(number[0]));
    assert(trim_start(line) == l);
    assert forall|j: int| 0 <= j < n implies !is_white(l[j]) by {
        assert(l[j] == number[j]);
    }
    assert(l[n] == gap);
    lemma_until_white_is(l, n);
    assert(l.take(n) =~= number);
    assert(l.skip(n + 1) =~= argv);
    lemma_trim_start_skips(lead, number);
    assert(trim_start(number) == number);
    lemma_until_white_is(number, n);
}

/// Whether a row tells of this pid, with a bare `codex` for its command line.
pub open spec fn tells_of_codex(line: Seq<char>, pid: u32) -> bool {
    process_line(line) matches Some((told, argv)) && told == pid && codex_argv(trim(argv))
}

/// The Codex processes are the pids whose row has a bare `codex` for its command line and whose
/// process owns a terminal; and no other.
pub proof fn codex_processes_are_told_and_own_a_terminal(
    lines: Seq<Seq<char>>,
    table: Map<u32, ProcFactsModel>,
    pid: u32,
)
    ensures
        codex_pids_in_table(lines, table).contains(pid) <==> table.contains_key(pid)
            && table[pid].tty is Some && exists|i: int|
            #![trigger lines[i]]
            0 <= i < lines.len() && tells_of_codex(lines[i], pid),
    decreases lines.len(),
{
    let all = codex_pids_in_table(lines, table);
    if lines.len() > 0 {
        let front = lines.drop_last();
        let before = codex_pids_in_table(front, table);
        codex_processes_are_told_and_own_a_terminal(front, table, pid);
        if all.contains(pid) {
            let k = choose|k: int| 0 <= k < all.len() && all[k] == pid;
            if k < before.len() {
                assert(before[k] == pid);
                assert(before.contains(pid));
                let i = choose|i: int|
                    #![trigger front[i]]
                    0 <= i < front.len() && tells_of_codex(front[i], pid);
                assert(lines[i] == front[i]);
            } else {
                assert(lines[lines.len() - 1] == lines.last());
            }
        }
        if table.contains_key(pid) && table[pid].tty is Some && exists|i: int|
            #![trigger lines[i]]
            0 <= i < lines.len() && tells_of_codex(lines[i], pid) {
            let i = choose|i: int|
                #![trigger lines[i]]
                0 <= i < lines.len() && tells_of_codex(lines[i], pid);
            if i < front.len() {
                assert(front[i] == lines[i]);
                assert(before.contains(pid));
                let k = choose|k: int| 0 <= k < before.len() && before[k] == pid;
                assert(all[k] == pid);
            } else {
                assert(all[all.len() - 1] == pid);
            }
        }
    }
}

/// A row that tells of a process is white space, the pid, a white-space character and the command
/// line, and nothing else.
pub proof fn a_told_row_is_a_pid_and_its_command(line: Seq<char>)
    ensures
        process_line(line) matches Some((pid, argv)) ==> exists|a: int, b: int|
            #![trigger line.subrange(a, b)]
            0 <= a < b < line.len() && all_white(line.take(a)) && parsed_u32(line.subrange(a, b))
                == Some(pid) && is_white(line[b]) && line.skip(b + 1) == argv,
{
    if let Some((pid, argv)) = process_line(line) {
        let l = trim_start(line);
        let i = until_white(l) as int;
        lemma_until_white_bounds(l);
        lemma_trim_start_is_a_suffix(line);
        let a = line.len() - l.len();
        let b = a + i;
        assert(line.subrange(a, b) =~= l.take(i));
        assert(line.skip(b + 1) =~= l.skip(i + 1));
        assert(line[b] == l[i]);
        if i == 0 {
            assert(l.take(0) =~= Seq::<char>::empty());
            only_digits_are_a_number(0, l.take(0));
        }
    }
}

proof fn lemma_until_white_bounds(s: Seq<char>)
    ensures
        until_white(s) <= s.len(),
        until_white(s) < s.len() ==> is_white(s[until_white(s) as int]),
    decreases s.len(),
{
    if s.len() > 0 && !is_white(s[0]) {
        lemma_until_white_bounds(s.drop_first());
    }
}

proof fn lemma_trim_start_is_a_suffix(s: Seq<char>)
    ensures
        trim_start(s).len() <= s.len(),
        trim_start(s) == s.skip(s.len() - trim_start(s).len()),
        all_white(s.take(s.len() - trim_start(s).len())),
    decreases s.len(),
{
    if s.len() > 0 && is_white(s[0]) {
        let t = s.drop_first();
        lemma_trim_start_is_a_suffix(t);
        let n = s.len() - trim_start(s).len();
        assert(trim_start(s) =~= s.skip(n));
        assert forall|i: int| 0 <= i < s.take(n).len() implies is_white(
            #[trigger] s.take(n)[i],
        ) by {
            if i > 0 {
                assert(t.take(n - 1)[i - 1] == s[i]);
            }
        }
    } else {
        assert(s.skip(0) =~= s);
    }
}

/// Whoever tells the terminals, the processes found are those told of as a bare `codex` whose
/// terminal was found, in the order of their rows.
pub proof fn codex_processes_are_found_in_order(
    lines: Seq<Seq<char>>,
    ttys: Seq<Option<String>>,
    line: Seq<char>,
    tty: Option<String>,
)
    requires
        ttys.len() == lines.len(),
    ensures
        codex_pids(Seq::empty(), ttys) == Seq::<u32>::empty(),
        codex_pids(lines.push(line), ttys.push(tty)) == match process_line(line) {
            Some((pid, argv)) => if codex_argv(trim(argv)) && tty is Some {
                codex_pids(lines, ttys).push(pid)
            } else {
                codex_pids(lines, ttys)
            },
            None => codex_pids(lines, ttys),
        },
{
    let longer = lines.push(line);
    assert(longer.drop_last() =~= lines);
    assert(longer.last() == line);
    lemma_later_ttys(lines, ttys, ttys.push(tty));
}

/// Where a Codex process is told of, its directory is asked for, in a call that names every pid
/// found; where none is, nothing is asked.
pub proof fn only_what_runs_is_asked_for(
    step: AfterProcs,
    rows: Seq<Seq<char>>,
    table: Map<u32, ProcFactsModel>,
)
    requires
        follows(step, rows, table),
    ensures
        match step {
            AfterProcs::NoCodex => forall|i: int, pid: u32|
                #![trigger tells_of_codex(rows[i], pid)]
                0 <= i < rows.len() && tells_of_codex(rows[i], pid) ==> !table.contains_key(pid)
                    || table[pid].tty is None,
            AfterProcs::AskCwds { pids, command } => {
                &&& pids@.len() > 0
                &&& command@ == cwds_command(pids@)
                &&& forall|pid: u32|
                    #![trigger pids@.contains(pid)]
                    pids@.contains(pid) <==> table.contains_key(pid) && table[pid].tty is Some
                        && exists|i: int|
                        #![trigger rows[i]]
                        0 <= i < rows.len() && tells_of_codex(rows[i], pid)
            },
        },
{
    let found = codex_pids_in_table(rows, table);
    match step {
        AfterProcs::NoCodex => {
            assert forall|i: int, pid: u32|
                #![trigger tells_of_codex(rows[i], pid)]
                0 <= i < rows.len() && tells_of_codex(rows[i], pid) implies !table.contains_key(pid)
                || table[pid].tty is None by {
                codex_processes_are_told_and_own_a_terminal(rows, table, pid);
                assert(!found.contains(pid));
            }
        },
        AfterProcs::AskCwds { pids, command } => {
            assert forall|pid: u32|
                #![trigger pids@.contains(pid)]
                pids@.contains(pid) <==> table.contains_key(pid) && table[pid].tty is Some
                    && exists|i: int|
                    #![trigger rows[i]]
                    0 <= i < rows.len() && tells_of_codex(rows[i], pid) by {
                codex_processes_are_told_and_own_a_terminal(rows, table, pid);
            }
        },
    }
}

/// The directory call is `lsof` for the current directory of the pids, which it names in decimal,
/// in order, with commas between them.
pub proof fn the_directory_call_names_every_pid(pids: Seq<u32>, pid: u32)
    ensures
        cwds_command(pids).program == "lsof"@,
        cwds_command(pids).args.len() == 6,
        cwds_command(pids).args[0] == "-a"@,
        cwds_command(pids).args[1] == "-d"@,
        cwds_command(pids).args[2] == "cwd"@,
        cwds_command(pids).args[3] == "-p"@,
        cwds_command(seq![pid]).args[4] == decimal(pid as nat),
        pids.len() > 0 ==> cwds_command(pids.push(pid)).args[4] == cwds_command(pids).args[4]
            + seq![','] + decimal(pid as nat),
        cwds_command(pids).args[5] == "-Fpn"@,
{
    let number = decimal(pid as nat);
    pieces_stand_between_separators(pid_texts(pids), ","@, number);
    assert(pid_texts(seq![pid]) =~= seq![number]);
    assert(pid_texts(pids.push(pid)) =~= pid_texts(pids).push(number));
    reveal_strlit(",");
    assert(","@ =~= seq![',']);
}

/// A line `p` and a pid turns the fields that follow to that pid, and a line `p` and anything else
/// to none; neither tells a directory.
pub proof fn a_pid_field_names_its_process(
    before: Seq<Seq<char>>,
    a: Seq<char>,
    pid: u32,
    b: Seq<char>,
    other: Seq<char>,
)
    requires
        all_white(a),
        all_white(b),
        parsed_u32(trim(other)) is None,
    ensures
        after_fields(before.push(seq!['p'] + a + decimal(pid as nat) + b)).current == Some(pid),
        after_fields(before.push(seq!['p'] + a + decimal(pid as nat) + b)).cwds == after_fields(
            before,
        ).cwds,
        after_fields(before.push(seq!['p'] + other)).current is None,
        after_fields(before.push(seq!['p'] + other)).cwds == after_fields(before).cwds,
{
    let number = decimal(pid as nat);
    lemma_decimal_digits(pid as nat);
    decimal_reads_back(pid);
    assert(is_digit(number[0]) && is_digit(number[number.len() - 1]));
    trimming_cuts_white_ends(a, number, b);
    let line = seq!['p'] + a + number + b;
    assert(line.skip(1) =~= a + number + b);
    assert(before.push(line).drop_last() =~= before);
    let odd = seq!['p'] + other;
    assert(odd.skip(1) =~= other);
    assert(before.push(odd).drop_last() =~= before);
}

/// A line `n` and a path tells the directory of the process that the fields now speak of, where
/// none was told of it before; otherwise it tells nothing.
pub proof fn a_name_field_tells_the_directory(
    before: Seq<Seq<char>>,
    a: Seq<char>,
    path: Seq<char>,
    b: Seq<char>,
)
    requires
        all_white(a),
        all_white(b),
        path.len() > 0 ==> !is_white(path[0]) && !is_white(path.last()),
    ensures
        ({
            let old_read = after_fields(before);
            let read = after_fields(before.push(seq!['n'] + a + path + b));
            &&& read.current == old_read.current
            &&& match old_read.current {
                Some(pid) => if old_read.cwds.contains_key(pid) {
                    read.cwds == old_read.cwds
                } else {
                    read.cwds == old_read.cwds.insert(pid, path)
                },
                None => read.cwds == old_read.cwds,
            }
        }),
{
    trimming_cuts_white_ends(a, path, b);
    let line = seq!['n'] + a + path + b;
    assert(line.skip(1) =~= a + path + b);
    assert(before.push(line).drop_last() =~= before);
}

/// A directory once told is never told otherwise, and at first none is told.
pub proof fn the_first_directory_counts(a: Seq<Seq<char>>, b: Seq<Seq<char>>, pid: u32)
    ensures
        after_fields(Seq::empty()).cwds == Map::<u32, Seq<char>>::empty(),
        after_fields(Seq::empty()).current is None,
        after_fields(a).cwds.contains_key(pid) ==> after_fields(a + b).cwds.contains_key(pid)
            && after_fields(a + b).cwds[pid] == after_fields(a).cwds[pid],
    decreases b.len(),
{
    if b.len() == 0 {
        assert(a + b =~= a);
    } else {
        the_first_directory_counts(a, b.drop_last(), pid);
        assert((a + b).drop_last() =~= a + b.drop_last());
    }
}

/// The live processes are those in the table whose directory is known, in the order of the pids,
/// each with its own directory, terminal, surface and running time.
pub proof fn live_processes_are_those_known(
    a: Seq<u32>,
    b: Seq<u32>,
    pid: u32,
    table: Map<u32, ProcFactsModel>,
    cwds: Map<u32, Seq<char>>,
)
    ensures
        infos_of(a + b, table, cwds) == infos_of(a, table, cwds) + infos_of(b, table, cwds),
        ({
            let infos = infos_of(seq![pid], table, cwds);
            if table.contains_key(pid) && cwds.contains_key(pid) {
                &&& infos.len() == 1
                &&& infos[0].pid == pid
                &&& infos[0].cwd == cwds[pid]
                &&& infos[0].pts == table[pid].tty
                &&& infos[0].surface_id == table[pid].surface_id
                &&& infos[0].elapsed_secs == table[pid].elapsed_secs
            } else {
                infos.len() == 0
            }
        }),
    decreases b.len(),
{
    reveal_with_fuel(infos_of, 2);
    assert(seq![pid].drop_last() =~= Seq::<u32>::empty());
    let (ia, ib) = (infos_of(a, table, cwds), infos_of(b, table, cwds));
    if b.len() == 0 {
        assert(a + b =~= a);
        assert(ia + ib =~= ia);
    } else {
        live_processes_are_those_known(a, b.drop_last(), pid, table, cwds);
        assert((a + b).drop_last() =~= a + b.drop_last());
        assert((a + b).last() == b.last());
        assert(infos_of(a + b, table, cwds) =~= ia + ib);
    }
}

/// A file is a rollout exactly where its name is `rollout-`, anything, and `.jsonl`.
pub proof fn a_rollout_has_its_prefix_and_extension(name: Seq<char>)
    ensures
        names_rollout(name) <==> exists|middle: Seq<char>|
            name == #[trigger] ("rollout-"@ + middle + ".jsonl"@),
{
    reveal_strlit("rollout-");
    reveal_strlit(".jsonl");
    let (p, s) = ("rollout-"@, ".jsonl"@);
    if names_rollout(name) {
        let n = name.len();
        assert(name.take(8)[7] == '-' && name.skip(n - 6)[0] == '.');
        assert(name.take(8)[0] == 'r' && name.take(8)[1] == 'o');
        assert(name.take(8)[6] == 't' && name.take(8)[5] == 'u');
        assert(name.take(8)[4] == 'o' && name.take(8)[3] == 'l' && name.take(8)[2] == 'l');
        assert(n - 6 >= 8);
        let middle = name.subrange(8, n - 6);
        assert(name =~= p + middle + s) by {
            assert forall|i: int| 0 <= i < n implies name[i] == (p + middle + s)[i] by {
                if i < 8 {
                    assert(name.take(8)[i] == p[i]);
                } else if i >= n - 6 {
                    assert(name.skip(n - 6)[i - (n - 6)] == s[i - (n - 6)]);
                }
            }
        }
    }
    if exists|middle: Seq<char>| name == #[trigger] (p + middle + s) {
        let middle = choose|middle: Seq<char>| name == #[trigger] (p + middle + s);
        assert(name.take(8) =~= p);
        assert(name.skip(name.len() - 6) =~= s);
    }
}

/// The files still there are those with a time, each under its place in the listing.
pub proof fn files_keep_their_place(mtimes: Seq<Option<u64>>, file: RolloutFile)
    requires
        mtimes.len() <= usize::MAX,
    ensures
        files_there(mtimes).contains(file) <==> file.index < mtimes.len()
            && mtimes[file.index as int] == Some(file.mtime_secs),
        forall|i: int, j: int|
            0 <= i < j < files_there(mtimes).len() ==> (#[trigger] files_there(mtimes)[i]).index < (
            #[trigger] files_there(mtimes)[j]).index,
    decreases mtimes.len(),
{
    let all = files_there(mtimes);
    if mtimes.len() > 0 {
        let front = mtimes.drop_last();
        let before = files_there(front);
        files_keep_their_place(front, file);
        assert forall|i: int, j: int| 0 <= i < j < all.len() implies (#[trigger] all[i]).index < (
        #[trigger] all[j]).index by {
            files_keep_their_place(front, before[i]);
            assert(before.contains(before[i]));
            if j < before.len() {
                assert(before[i].index < before[j].index);
            }
        }
        if all.contains(file) {
            let k = choose|k: int| 0 <= k < all.len() && all[k] == file;
            if k < before.len() {
                assert(before[k] == file);
                assert(before.contains(file));
            }
        }
        if file.index < mtimes.len() && mtimes[file.index as int] == Some(file.mtime_secs) {
            if file.index < front.len() {
                assert(before.contains(file));
                let k = choose|k: int| 0 <= k < before.len() && before[k] == file;
                assert(all[k] == file);
            } else {
                assert(all[all.len() - 1] == file);
            }
        }
    }
}

/// A sweep reads listed files that are still there, the newest first, at most three hundred; one
/// that it does not read is not newer than any that it reads, and is left out only where it reads
/// three hundred.
#[verifier::rlimit(40)]
pub proof fn a_sweep_reads_the_newest(kept: Seq<RolloutFile>, mtimes: Seq<Option<u64>>)
    requires
        are_newest(kept, mtimes),
        mtimes.len() <= usize::MAX,
    ensures
        kept.len() <= 300,
        forall|k: int|
            0 <= k < kept.len() ==> (#[trigger] kept[k]).index < mtimes.len()
                && mtimes[kept[k].index as int] == Some(kept[k].mtime_secs),
        forall|k: int, l: int|
            0 <= k < l < kept.len() ==> (#[trigger] kept[k]).mtime_secs >= (
            #[trigger] kept[l]).mtime_secs,
        forall|file: RolloutFile|
            file.index < mtimes.len() && mtimes[file.index as int] == Some(file.mtime_secs) ==> (
            #[trigger] kept.contains(file)) || (kept.len() == 300 && forall|k: int|
                0 <= k < kept.len() ==> (#[trigger] kept[k]).mtime_secs >= file.mtime_secs),
{
    let files = files_there(mtimes);
    let sorted = choose|sorted: Seq<RolloutFile>| #[trigger]
        stable_sort_of::<RolloutFile>(files, sorted) && kept == capped(sorted);
    a_sorted_list_holds_the_same::<RolloutFile>(files, sorted);
    no_newer_file_is_left_out(mtimes, sorted);
    assert forall|k: int| 0 <= k < kept.len() implies (#[trigger] kept[k]).index < mtimes.len()
        && mtimes[kept[k].index as int] == Some(kept[k].mtime_secs) by {
        assert(kept[k] == sorted[k]);
        assert(files.contains(sorted[k]));
        files_keep_their_place(mtimes, kept[k]);
    }
    assert forall|k: int, l: int| 0 <= k < l < kept.len() implies (#[trigger] kept[k]).mtime_secs
        >= (#[trigger] kept[l]).mtime_secs by {
        assert(kept[k] == sorted[k] && kept[l] == sorted[l]);
        assert(RolloutFile::le(sorted[k], sorted[l]));
    }
    assert forall|file: RolloutFile|
        file.index < mtimes.len() && mtimes[file.index as int] == Some(file.mtime_secs) implies (
    #[trigger] kept.contains(file)) || (kept.len() == 300 && forall|k: int|
        0 <= k < kept.len() ==> (#[trigger] kept[k]).mtime_secs >= file.mtime_secs) by {
        files_keep_their_place(mtimes, file);
        let f = choose|f: int| 0 <= f < files.len() && files[f] == file;
        assert(sorted.contains(files[f]));
        let s = choose|s: int| 0 <= s < sorted.len() && sorted[s] == file;
        if s < kept.len() {
            assert(kept[s] == file);
        } else {
            assert forall|k: int| 0 <= k < kept.len() implies (#[trigger] kept[k]).mtime_secs
                >= file.mtime_secs by {
                assert(capped(sorted)[k].mtime_secs >= sorted[s].mtime_secs);
            }
        }
    }
}

/// Every file read whose first line names a session is a candidate, with that session's id and
/// directory, the file's time, and the file's place; and every candidate is one of them.
pub proof fn candidates_are_the_files_that_name_a_session(
    files: Seq<RolloutFile>,
    metas: Seq<Option<SessionMetaModel>>,
    c: CandidateModel,
    index: usize,
)
    ensures
        candidates_of(files, metas).contains((c, index)) <==> exists|k: int|
            #![trigger files[k]]
            0 <= k < files.len() && k < metas.len() && files[k].index == index
                && files[k].mtime_secs == c.mtime_secs && match metas[k] {
                Some(meta) => meta.id == c.session_id && meta.cwd == c.cwd,
                None => false,
            },
    decreases files.len(),
{
    let all = candidates_of(files, metas);
    if files.len() > 0 {
        let front = files.drop_last();
        let before = candidates_of(front, metas);
        candidates_are_the_files_that_name_a_session(front, metas, c, index);
        if all.contains((c, index)) {
            let j = choose|j: int| 0 <= j < all.len() && all[j] == (c, index);
            if j < before.len() {
                assert(before[j] == (c, index));
                assert(before.contains((c, index)));
                let k = choose|k: int|
                    #![trigger front[k]]
                    0 <= k < front.len() && k < metas.len() && front[k].index == index
                        && front[k].mtime_secs == c.mtime_secs && match metas[k] {
                        Some(meta) => meta.id == c.session_id && meta.cwd == c.cwd,
                        None => false,
                    };
                assert(files[k] == front[k]);
            } else {
                assert(files[files.len() - 1] == files.last());
            }
        }
        if exists|k: int|
            #![trigger files[k]]
            0 <= k < files.len() && k < metas.len() && files[k].index == index
                && files[k].mtime_secs == c.mtime_secs && match metas[k] {
                Some(meta) => meta.id == c.session_id && meta.cwd == c.cwd,
                None => false,
            } {
            let k = choose|k: int|
                #![trigger files[k]]
                0 <= k < files.len() && k < metas.len() && files[k].index == index
                    && files[k].mtime_secs == c.mtime_secs && match metas[k] {
                    Some(meta) => meta.id == c.session_id && meta.cwd == c.cwd,
                    None => false,
                };
            if k < front.len() {
                assert(front[k] == files[k]);
                assert(before.contains((c, index)));
                let j = choose|j: int| 0 <= j < before.len() && before[j] == (c, index);
                assert(all[j] == (c, index));
            } else {
                assert(all[all.len() - 1] == (c, index));
            }
        }
    }
}

/// The tail of a session is read from its last candidate.
pub proof fn the_last_candidate_tells(candidates: Seq<CandidateModel>, session_id: Seq<char>)
    ensures
        ({
            let k = last_of_session(candidates, session_id);
            &&& -1 <= k < candidates.len()
            &&& k >= 0 ==> candidates[k].session_id == session_id
            &&& forall|j: int|
                k < j < candidates.len() ==> (#[trigger] candidates[j]).session_id != session_id
        }),
    decreases candidates.len(),
{
    if candidates.len() > 0 && candidates.last().session_id != session_id {
        let front = candidates.drop_last();
        the_last_candidate_tells(front, session_id);
        let k = last_of_session(candidates, session_id);
        assert forall|j: int| k < j < candidates.len() implies (#[trigger] candidates[j]).session_id
            != session_id by {
            if j < front.len() {
                assert(front[j] == candidates[j]);
            }
        }
    }
}

/// A process that has run for some time started that long ago, in the directory it runs in; a file
/// is as old as the time since it was last written.
pub proof fn times_are_told_from_now(now_secs: u64, infos: Seq<ProcInfoModel>, mtime_secs: u64)
    ensures
        all_join_facts(now_secs, infos).len() == infos.len(),
        forall|i: int|
            #![trigger all_join_facts(now_secs, infos)[i]]
            0 <= i < infos.len() ==> all_join_facts(now_secs, infos)[i].cwd == infos[i].cwd && (
            infos[i].elapsed_secs <= now_secs ==> all_join_facts(
                now_secs,
                infos,
            )[i].start_wallclock_secs + infos[i].elapsed_secs == now_secs) && (
            infos[i].elapsed_secs > now_secs ==> all_join_facts(
                now_secs,
                infos,
            )[i].start_wallclock_secs == 0),
        match age_at(now_secs, mtime_secs) {
            Some(age) => age + mtime_secs == now_secs,
            None => mtime_secs > now_secs,
        },
{
}

/// Every row tells its own process: its directory, the branch of its place in the list, the pane
/// it is matched to and that pane's stream, and its terminal exactly where it names a surface. It
/// is attributed to Codex.
pub proof fn a_codex_row_tells_its_process(
    now_secs: u64,
    infos: Seq<ProcInfoModel>,
    candidates: Seq<CandidateModel>,
    tails: Seq<Vec<u8>>,
    branches: Seq<Option<String>>,
    surfaces: Seq<SurfaceModel>,
    i: int,
)
    requires
        0 <= i < infos.len(),
    ensures
        ({
            let row = scanned_row(now_secs, infos, candidates, tails, branches, surfaces, i);
            &&& row.cwd == infos[i].cwd
            &&& row.account == Some("codex"@)
            &&& row.branch == if i < branches.len() {
                match branches[i] {
                    Some(b) => Some(b@),
                    None => None,
                }
            } else {
                None
            }
            &&& row.pane == matched_pane(infos[i].surface_id, surfaces)
            &&& row.pane is None ==> row.stream is None
            &&& row.pane is Some ==> row.stream == Some(row.pane->0.stream)
            &&& infos[i].surface_id is Some ==> row.pts == infos[i].pts
            &&& infos[i].surface_id is None ==> row.pts is None
        }),
{
}

/// A joined process shows its rollout: the rollout's session and age, and what its tail tells of
/// the name, the status and the context; one without a prompt in its tail is untitled.
pub proof fn a_joined_row_tells_its_rollout(
    now_secs: u64,
    infos: Seq<ProcInfoModel>,
    candidates: Seq<CandidateModel>,
    tails: Seq<Vec<u8>>,
    branches: Seq<Option<String>>,
    surfaces: Seq<SurfaceModel>,
    i: int,
)
    requires
        0 <= i < infos.len(),
        joined(all_join_facts(now_secs, infos), candidates, i) is Some,
    ensures
        ({
            let row = scanned_row(now_secs, infos, candidates, tails, branches, surfaces, i);
            let rollout = joined(all_join_facts(now_secs, infos), candidates, i)->0;
            let tail = if i < tails.len() {
                tails[i]@
            } else {
                Seq::<u8>::empty()
            };
            let facts = rollout_facts(tail_lines(tail), row.secs_since_append);
            &&& row.session_id == rollout.session_id
            &&& match row.secs_since_append {
                Some(age) => age + rollout.mtime_secs == now_secs,
                None => rollout.mtime_secs > now_secs,
            }
            &&& facts.name is Some ==> row.name == facts.name->0
            &&& facts.name is None ==> row.name == "codex (untitled)"@
            &&& row.status == facts.status
            &&& row.context_tokens == facts.tokens
            &&& row.ctx_pct == facts.ctx_pct
        }),
{
}

/// A process without a rollout is shown under its pid, and tells neither context nor age.
pub proof fn a_placeholder_is_named_by_its_pid(
    now_secs: u64,
    infos: Seq<ProcInfoModel>,
    candidates: Seq<CandidateModel>,
    tails: Seq<Vec<u8>>,
    branches: Seq<Option<String>>,
    surfaces: Seq<SurfaceModel>,
    i: int,
)
    requires
        0 <= i < infos.len(),
        joined(all_join_facts(now_secs, infos), candidates, i) is None,
    ensures
        ({
            let row = scanned_row(now_secs, infos, candidates, tails, branches, surfaces, i);
            &&& row.session_id == "codex-pid-"@ + decimal(infos[i].pid as nat)
            &&& row.context_tokens is None
            &&& row.ctx_pct is None
            &&& row.secs_since_append is None
        }),
{
}

/// A model of a process, a rollout or a first line holds each field of it.
pub proof fn codex_models_hold_every_field(
    meta: SessionMeta,
    info: ProcInfo,
    proc: CodexProc,
    candidate: RolloutCandidate,
    cwds: HashMap<u32, String>,
    pid: u32,
)
    ensures
        meta@.id == meta.id@,
        meta@.cwd == meta.cwd@,
        info@.pid == info.pid,
        info@.cwd == info.cwd@,
        match (info.pts, info@.pts) {
            (Some(s), Some(t)) => s@ == t,
            (None, None) => true,
            _ => false,
        },
        match (info.surface_id, info@.surface_id) {
            (Some(s), Some(t)) => s@ == t,
            (None, None) => true,
            _ => false,
        },
        info@.elapsed_secs == info.elapsed_secs,
        proc@.cwd == proc.cwd@,
        proc@.start_wallclock_secs == proc.start_wallclock_secs,
        candidate@.session_id == candidate.session_id@,
        candidate@.cwd == candidate.cwd@,
        candidate@.mtime_secs == candidate.mtime_secs,
        opt_candidate(Some(&candidate)) == Some(candidate@),
        opt_candidate(None) is None,
        cwds_model(cwds).contains_key(pid) <==> cwds@.contains_key(pid),
        cwds@.contains_key(pid) ==> cwds_model(cwds)[pid] == cwds@[pid]@,
{
}

/// The models of lists hold each element of them, in order.
pub proof fn codex_lists_hold_every_element(
    metas: Seq<Option<SessionMeta>>,
    candidates: Seq<RolloutCandidate>,
    files: Seq<usize>,
)
    ensures
        opt_metas(metas).len() == metas.len(),
        forall|i: int|
            #![trigger opt_metas(metas)[i]]
            0 <= i < metas.len() ==> match (metas[i], opt_metas(metas)[i]) {
                (Some(m), Some(n)) => m@ == n,
                (None, None) => true,
                _ => false,
            },
        with_files(candidates, files).len() == candidates.len(),
        forall|i: int|
            #![trigger with_files(candidates, files)[i]]
            0 <= i < candidates.len() ==> with_files(candidates, files)[i] == (
                candidates[i]@,
                files[i],
            ),
{
}

/// The tail of a rollout reaches to its end: a short rollout is read whole, of a longer one
/// exactly the last 256 KiB.
pub proof fn a_tail_reaches_to_the_end(len: u64)
    ensures
        tail_start(len) <= len,
        len <= 262_144 ==> tail_start(len) == 0,
        len >= 262_144 ==> len - tail_start(len) == 262_144,
{
}

/// A first line names a session exactly where it is a `session_meta`, and the session has the id
/// and the directory that it tells.
pub proof fn only_a_session_meta_names_a_session(kind: Seq<char>, id: Seq<char>, cwd: Seq<char>)
    ensures
        named_session(kind, id, cwd) is Some <==> kind == "session_meta"@,
        named_session(kind, id, cwd) matches Some(meta) ==> meta.id == id && meta.cwd == cwd,
{
}

} // verus!
