//! Live-session discovery: session files filtered by the process table.
//!
//! A session is live iff `ps` reports its pid and that pid's start time equals the one the
//! session file recorded: a pid reused since has a different start time. Stale files for dead
//! pids are expected; they are counted, never shown live.

use vstd::prelude::*;
use vstd::string::*;
use crate::number::decimal;
use crate::order::views_of;
use crate::procsrc::{
    a_process_line_is_read_whole, a_told_process_is_in_the_table, all_ascii_white, normalize_lstart,
    normalized, normalizing_keeps_the_words, padding_never_decides, table_model, table_of_lines,
    table_row, ProcFacts, ProcFactsModel, ProcTable,
};
use crate::text::{
    a_suffix_ends_the_text, after_last, chars_of, ends_with, is_word, last_position,
    lemma_words_are_words, nothing_follows_the_last, occurs, opt_text, same_text, text_ends_with,
    words, word_span,
};

verus! {

broadcast use vstd::std_specs::hash::group_hash_axioms;

/// Native coarse status from the session file. Unknown strings are preserved: they are a drift
/// signal.
#[derive(Debug, PartialEq, Eq)]
pub enum NativeStatus {
    /// The agent is processing.
    Busy,
    /// Waiting at the prompt.
    Idle,
    /// The user dropped to shell mode.
    Shell,
    /// Blocked on user input: the state class the transcript never shows.
    Waiting,
    /// A status string this version doesn't know: surfaced, never hidden.
    Other(String),
}

/// What a `NativeStatus` stands for.
pub enum NativeStatusModel {
    Busy,
    Idle,
    Shell,
    Waiting,
    Other(Seq<char>),
}

impl View for NativeStatus {
    type V = NativeStatusModel;

    open spec fn view(&self) -> NativeStatusModel {
        match self {
            NativeStatus::Busy => NativeStatusModel::Busy,
            NativeStatus::Idle => NativeStatusModel::Idle,
            NativeStatus::Shell => NativeStatusModel::Shell,
            NativeStatus::Waiting => NativeStatusModel::Waiting,
            NativeStatus::Other(s) => NativeStatusModel::Other(s@),
        }
    }
}

impl Clone for NativeStatus {
    fn clone(&self) -> (r: Self)
        ensures
            r@ == self@,
    {
        match self {
            NativeStatus::Busy => NativeStatus::Busy,
            NativeStatus::Idle => NativeStatus::Idle,
            NativeStatus::Shell => NativeStatus::Shell,
            NativeStatus::Waiting => NativeStatus::Waiting,
            NativeStatus::Other(s) => NativeStatus::Other(s.clone()),
        }
    }
}

/// The native status that a string names.
pub open spec fn native_status(s: Seq<char>) -> NativeStatusModel {
    if s == "busy"@ {
        NativeStatusModel::Busy
    } else if s == "idle"@ {
        NativeStatusModel::Idle
    } else if s == "shell"@ {
        NativeStatusModel::Shell
    } else if s == "waiting"@ {
        NativeStatusModel::Waiting
    } else {
        NativeStatusModel::Other(s)
    }
}

impl From<&str> for NativeStatus {
    fn from(s: &str) -> (r: Self)
        ensures
            r@ == native_status(s@),
    {
        if same_text(s, "busy") {
            NativeStatus::Busy
        } else if same_text(s, "idle") {
            NativeStatus::Idle
        } else if same_text(s, "shell") {
            NativeStatus::Shell
        } else if same_text(s, "waiting") {
            NativeStatus::Waiting
        } else {
            NativeStatus::Other(s.to_owned())
        }
    }
}

/// What `from` returns is said by its own contract, in terms of views.
impl vstd::std_specs::convert::FromSpecImpl<&str> for NativeStatus {
    open spec fn obeys_from_spec() -> bool {
        false
    }

    open spec fn from_spec(s: &str) -> Self {
        NativeStatus::Busy
    }
}

/// One session file as its writer spells it.
#[derive(Debug, Clone, PartialEq, Eq)]
pub struct RawSessionFile {
    pub pid: u32,
    pub session_id: String,
    pub cwd: String,
    pub proc_start: String,
    pub name: String,
    pub status: String,
    pub updated_at_ms: u64,
    pub version: Option<String>,
}

/// One parsed session file.
#[derive(Debug, PartialEq, Eq)]
pub struct SessionFile {
    /// The process id.
    pub pid: u32,
    /// The session UUID: the aggregate identity.
    pub session_id: String,
    /// Session working directory.
    pub cwd: String,
    /// The process start time recorded at launch: the liveness token, compared and never
    /// interpreted.
    pub proc_start: String,
    /// Derived session name.
    pub name: String,
    /// Native coarse status.
    pub status: NativeStatus,
    /// Last update, epoch milliseconds.
    pub updated_at_ms: u64,
    /// The version that wrote the file.
    pub version: Option<String>,
}

/// What a `SessionFile` stands for.
pub struct SessionFileModel {
    pub pid: u32,
    pub session_id: Seq<char>,
    pub cwd: Seq<char>,
    pub proc_start: Seq<char>,
    pub name: Seq<char>,
    pub status: NativeStatusModel,
    pub updated_at_ms: u64,
    pub version: Option<Seq<char>>,
}

impl View for SessionFile {
    type V = SessionFileModel;

    open spec fn view(&self) -> SessionFileModel {
        SessionFileModel {
            pid: self.pid,
            session_id: self.session_id@,
            cwd: self.cwd@,
            proc_start: self.proc_start@,
            name: self.name@,
            status: self.status@,
            updated_at_ms: self.updated_at_ms,
            version: opt_text(self.version),
        }
    }
}

impl Clone for SessionFile {
    fn clone(&self) -> (r: Self)
        ensures
            r@ == self@,
    {
        SessionFile {
            pid: self.pid,
            session_id: self.session_id.clone(),
            cwd: self.cwd.clone(),
            proc_start: self.proc_start.clone(),
            name: self.name.clone(),
            status: self.status.clone(),
            updated_at_ms: self.updated_at_ms,
            version: self.version.clone(),
        }
    }
}

/// The session file that its writer's spelling stands for.
pub fn session_file(raw: RawSessionFile) -> (r: SessionFile)
    ensures
        r@ == (SessionFileModel {
            pid: raw.pid,
            session_id: raw.session_id@,
            cwd: raw.cwd@,
            proc_start: raw.proc_start@,
            name: raw.name@,
            status: native_status(raw.status@),
            updated_at_ms: raw.updated_at_ms,
            version: opt_text(raw.version),
        }),
{
    SessionFile {
        pid: raw.pid,
        session_id: raw.session_id,
        cwd: raw.cwd,
        proc_start: raw.proc_start,
        name: raw.name,
        status: NativeStatus::from(raw.status.as_str()),
        updated_at_ms: raw.updated_at_ms,
        version: raw.version,
    }
}

/// A live, attributed session.
#[derive(Debug, PartialEq, Eq)]
pub struct LiveSession {
    /// Parsed session file.
    pub file: SessionFile,
    /// The account, where the process is attributed to one.
    pub account: Option<String>,
    /// The exact terminal surface this session runs in: the jump target.
    pub surface_id: Option<String>,
    /// The session's controlling terminal: the highlight write target.
    pub pts: Option<String>,
}

/// What a `LiveSession` stands for.
pub struct LiveSessionModel {
    pub file: SessionFileModel,
    pub account: Option<Seq<char>>,
    pub surface_id: Option<Seq<char>>,
    pub pts: Option<Seq<char>>,
}

impl View for LiveSession {
    type V = LiveSessionModel;

    open spec fn view(&self) -> LiveSessionModel {
        LiveSessionModel {
            file: self.file@,
            account: opt_text(self.account),
            surface_id: opt_text(self.surface_id),
            pts: opt_text(self.pts),
        }
    }
}

impl Clone for LiveSession {
    fn clone(&self) -> (r: Self)
        ensures
            r@ == self@,
    {
        LiveSession {
            file: self.file.clone(),
            account: self.account.clone(),
            surface_id: self.surface_id.clone(),
            pts: self.pts.clone(),
        }
    }
}

/// Scan tallies for the doctor and footer: files seen against files shown.
#[derive(Debug, Clone, Copy, PartialEq, Eq, Structural)]
pub struct ScanStats {
    /// Session files in the sessions directory.
    pub total_files: usize,
    /// Files that failed to parse: a drift signal.
    pub parse_failed: usize,
    /// Parsed files whose pid is dead or reused: expected leftovers.
    pub stale_dead: usize,
    /// Live sessions returned.
    pub live: usize,
    /// The sessions directory itself could not be read: not an empty fleet.
    pub dir_unreadable: bool,
    /// The process table could not be fetched, so liveness is unknowable and every session
    /// reads as dead: not an empty fleet.
    pub procs_unavailable: bool,
}

/// The tallies of a scan that saw nothing.
pub open spec fn no_stats() -> ScanStats {
    ScanStats {
        total_files: 0,
        parse_failed: 0,
        stale_dead: 0,
        live: 0,
        dir_unreadable: false,
        procs_unavailable: false,
    }
}

impl Default for ScanStats {
    fn default() -> (r: Self)
        ensures
            r == no_stats(),
    {
        ScanStats {
            total_files: 0,
            parse_failed: 0,
            stale_dead: 0,
            live: 0,
            dir_unreadable: false,
            procs_unavailable: false,
        }
    }
}

/// Field 22 of a Linux `/proc/<pid>/stat` line: the twentieth word after the last `)`.
pub open spec fn starttime_in(stat: Seq<char>) -> Option<Seq<char>> {
    let paren = last_position(stat, ')');
    let fields = words(stat.skip(paren + 1));
    if paren < 0 || fields.len() <= 19 {
        None
    } else {
        Some(fields[19])
    }
}

/// Extracts the start time from Linux `/proc/<pid>/stat` content. The command (field 2) may
/// contain spaces and parens, so fields are counted after the last `)`.
pub fn starttime_from_stat(stat: &str) -> (r: Option<&str>)
    ensures
        match r {
            Some(field) => starttime_in(stat@) == Some(field@),
            None => starttime_in(stat@) is None,
        },
{
    let chars = chars_of(stat);
    let start = after_last(chars.as_slice(), ')');
    if start == 0 {
        return None;
    }
    let after = vstd::slice::slice_subrange(chars.as_slice(), start, chars.len());
    assert(after@ =~= stat@.skip(start as int));
    match word_span(after, 19) {
        Some((a, b)) => {
            assert(after@.subrange(a as int, b as int) =~= stat@.subrange(start + a, start + b));
            Some(stat.substring_char(start + a, start + b))
        },
        None => None,
    }
}

/// Whether a file of this name, in the sessions directory, is a session file: its extension is
/// `json`.
pub open spec fn names_session_file(name: Seq<char>) -> bool {
    name.len() > 5 && ends_with(name, ".json"@)
}

/// Whether a file of this name, in the sessions directory, is a session file.
pub fn is_session_file(name: &str) -> (r: bool)
    ensures
        r == names_session_file(name@),
{
    let chars = chars_of(name);
    chars.len() > 5 && text_ends_with(chars.as_slice(), ".json")
}

/// The liveness invariant: the table has the pid, with the start time the file recorded.
pub open spec fn is_live(
    table: Map<u32, ProcFactsModel>,
    pid: u32,
    proc_start: Seq<char>,
) -> bool {
    table.contains_key(pid) && table[pid].lstart == normalized(proc_start)
}

/// The facts of the process that wrote a session file, if it still runs.
pub fn live_facts<'t>(procs: &'t ProcTable, pid: u32, proc_start: &str) -> (r: Option<
    &'t ProcFacts,
>)
    ensures
        match r {
            Some(facts) => is_live(table_model(*procs), pid, proc_start@) && facts@ == table_model(
                *procs,
            )[pid],
            None => !is_live(table_model(*procs), pid, proc_start@),
        },
{
    match procs.get(&pid) {
        Some(facts) => {
            assert(table_model(*procs)[pid] == facts@);
            if facts.lstart == normalize_lstart(proc_start) {
                Some(facts)
            } else {
                None
            }
        },
        None => None,
    }
}

/// A live session file with what the process table adds.
pub open spec fn attributed(file: SessionFileModel, facts: ProcFactsModel) -> LiveSessionModel {
    LiveSessionModel {
        file,
        account: facts.account,
        surface_id: facts.surface_id,
        pts: facts.tty,
    }
}

/// Session files, each as far as it parsed.
pub open spec fn parsed_files(files: Seq<Option<SessionFile>>) -> Seq<Option<SessionFileModel>> {
    Seq::new(
        files.len(),
        |i: int|
            match files[i] {
                Some(f) => Some(f@),
                None => None,
            },
    )
}

/// Whether a file parsed and its session is live.
pub open spec fn file_is_live(
    table: Map<u32, ProcFactsModel>,
    file: Option<SessionFileModel>,
) -> bool {
    file matches Some(f) && is_live(table, f.pid, f.proc_start)
}

/// The live sessions among `files`, in order.
pub open spec fn live_sessions(
    table: Map<u32, ProcFactsModel>,
    files: Seq<Option<SessionFileModel>>,
) -> Seq<LiveSessionModel>
    decreases files.len(),
{
    if files.len() == 0 {
        seq![]
    } else {
        let before = live_sessions(table, files.drop_last());
        if file_is_live(table, files.last()) {
            let file = files.last()->0;
            before.push(attributed(file, table[file.pid]))
        } else {
            before
        }
    }
}

/// How many of `files` did not parse.
pub open spec fn parse_failures(files: Seq<Option<SessionFileModel>>) -> nat
    decreases files.len(),
{
    if files.len() == 0 {
        0
    } else {
        parse_failures(files.drop_last()) + if files.last() is None {
            1nat
        } else {
            0nat
        }
    }
}

/// How many of `files` parsed but belong to a pid that is dead or reused.
pub open spec fn stale_files(
    table: Map<u32, ProcFactsModel>,
    files: Seq<Option<SessionFileModel>>,
) -> nat
    decreases files.len(),
{
    if files.len() == 0 {
        0
    } else {
        stale_files(table, files.drop_last()) + if files.last() is Some && !file_is_live(
            table,
            files.last(),
        ) {
            1nat
        } else {
            0nat
        }
    }
}

/// Every file is shown live, counted stale, or counted as a parse failure: exactly one of them.
pub proof fn every_file_is_accounted_for(
    table: Map<u32, ProcFactsModel>,
    files: Seq<Option<SessionFileModel>>,
)
    ensures
        live_sessions(table, files).len() + stale_files(table, files) + parse_failures(files)
            == files.len(),
    decreases files.len(),
{
    if files.len() > 0 {
        every_file_is_accounted_for(table, files.drop_last());
    }
}

/// The stats of a scan of readable `files`.
pub open spec fn scan_stats(
    table: Map<u32, ProcFactsModel>,
    files: Seq<Option<SessionFileModel>>,
) -> ScanStats {
    ScanStats {
        total_files: files.len() as usize,
        parse_failed: parse_failures(files) as usize,
        stale_dead: stale_files(table, files) as usize,
        live: live_sessions(table, files).len() as usize,
        dir_unreadable: false,
        procs_unavailable: false,
    }
}

/// Filters session files by liveness against the process table. `files` holds each session file
/// as far as it parsed, or is `None` where the directory could not be read.
pub fn scan(files: Option<Vec<Option<SessionFile>>>, procs: &ProcTable) -> (r: (
    Vec<LiveSession>,
    ScanStats,
))
    ensures
        match files {
            Some(files) => views_of(r.0@) == live_sessions(
                table_model(*procs),
                parsed_files(files@),
            ) && r.1 == scan_stats(table_model(*procs), parsed_files(files@)),
            None => r.0@.len() == 0 && r.1 == (ScanStats { dir_unreadable: true, ..no_stats() }),
        },
{
    let mut stats = ScanStats::default();
    let mut live: Vec<LiveSession> = Vec::new();
    let entries = match files {
        Some(entries) => entries,
        None => {
            stats.dir_unreadable = true;
            return (live, stats);
        },
    };
    let ghost table = table_model(*procs);
    let ghost all = parsed_files(entries@);
    let mut i: usize = 0;
    assert(all.take(0) =~= seq![]);
    assert(views_of(live@) =~= seq![]);
    while i < entries.len()
        invariant
            i <= entries.len(),
            table == table_model(*procs),
            all == parsed_files(entries@),
            views_of(live@) == live_sessions(table, all.take(i as int)),
            stats.total_files == i,
            stats.parse_failed == parse_failures(all.take(i as int)),
            stats.stale_dead == stale_files(table, all.take(i as int)),
            stats.live == 0,
            !stats.dir_unreadable,
            !stats.procs_unavailable,
        decreases entries.len() - i,
    {
        let ghost seen = all.take(i as int);
        assert(all.take(i + 1).drop_last() =~= seen);
        assert(all.take(i + 1).last() == all[i as int]);
        proof {
            every_file_is_accounted_for(table, seen);
        }
        stats.total_files += 1;
        match &entries[i] {
            Some(file) => {
                match live_facts(procs, file.pid, file.proc_start.as_str()) {
                    Some(facts) => {
                        let ghost before = views_of(live@);
                        let session = LiveSession {
                            file: file.clone(),
                            account: facts.account.clone(),
                            surface_id: facts.surface_id.clone(),
                            pts: facts.tty.clone(),
                        };
                        assert(session@ == attributed(file@, facts@));
                        let ghost told = session@;
                        live.push(session);
                        assert(views_of(live@) =~= before.push(told));
                    },
                    None => {
                        stats.stale_dead += 1;
                    },
                }
            },
            None => {
                stats.parse_failed += 1;
            },
        }
        i += 1;
    }
    assert(all.take(i as int) =~= all);
    proof {
        every_file_is_accounted_for(table, all);
    }
    stats.live = live.len();
    (live, stats)
}

/// Against an empty process table nothing is live: every parsed file counts as stale.
pub proof fn an_empty_table_shows_nothing(files: Seq<Option<SessionFileModel>>)
    ensures
        live_sessions(Map::empty(), files).len() == 0,
        stale_files(Map::empty(), files) + parse_failures(files) == files.len(),
    decreases files.len(),
{
    if files.len() > 0 {
        an_empty_table_shows_nothing(files.drop_last());
    }
}

/// A pid whose process started at another time, written in other words, was reused: its session
/// file is never live, though the pid is.
pub proof fn a_reused_pid_is_never_live(
    table: Map<u32, ProcFactsModel>,
    pid: u32,
    recorded: Seq<char>,
    actual: Seq<char>,
)
    requires
        table.contains_key(pid),
        table[pid].lstart == normalized(actual),
    ensures
        is_live(table, pid, recorded) <==> words(recorded) == words(actual),
{
    padding_never_decides(recorded, actual);
}

/// The live sessions are exactly those of files that parsed and whose process still runs.
pub proof fn live_iff_running(
    table: Map<u32, ProcFactsModel>,
    files: Seq<Option<SessionFileModel>>,
    session: LiveSessionModel,
)
    ensures
        live_sessions(table, files).contains(session) <==> exists|i: int|
            #![trigger files[i]]
            0 <= i < files.len() && file_is_live(table, files[i]) && session == attributed(
                files[i]->0,
                table[files[i]->0.pid],
            ),
    decreases files.len(),
{
    let shown = live_sessions(table, files);
    if files.len() > 0 {
        let front = files.drop_last();
        let before = live_sessions(table, front);
        live_iff_running(table, front, session);
        if shown.contains(session) {
            let k = choose|k: int| 0 <= k < shown.len() && shown[k] == session;
            if k < before.len() {
                assert(before[k] == session);
                let i = choose|i: int|
                    #![trigger front[i]]
                    0 <= i < front.len() && file_is_live(table, front[i]) && session == attributed(
                        front[i]->0,
                        table[front[i]->0.pid],
                    );
                assert(files[i] == front[i]);
            } else {
                assert(files[files.len() - 1] == files.last());
            }
        }
        if exists|i: int|
            #![trigger files[i]]
            0 <= i < files.len() && file_is_live(table, files[i]) && session == attributed(
                files[i]->0,
                table[files[i]->0.pid],
            ) {
            let i = choose|i: int|
                #![trigger files[i]]
                0 <= i < files.len() && file_is_live(table, files[i]) && session == attributed(
                    files[i]->0,
                    table[files[i]->0.pid],
                );
            if i < front.len() {
                assert(front[i] == files[i]);
                let k = choose|k: int| 0 <= k < before.len() && before[k] == session;
                assert(shown[k] == session);
            } else {
                assert(shown[shown.len() - 1] == session);
            }
        }
    }
}

/// Each native status has its name, and any other string is kept as it is.
pub proof fn every_native_status_has_its_name(s: Seq<char>)
    ensures
        native_status(s) == NativeStatusModel::Busy <==> s == "busy"@,
        native_status(s) == NativeStatusModel::Idle <==> s == "idle"@,
        native_status(s) == NativeStatusModel::Shell <==> s == "shell"@,
        native_status(s) == NativeStatusModel::Waiting <==> s == "waiting"@,
        native_status(s) is Other ==> native_status(s) == NativeStatusModel::Other(s),
{
    reveal_strlit("busy");
    reveal_strlit("idle");
    reveal_strlit("shell");
    reveal_strlit("waiting");
    assert("busy"@[0] == 'b' && "idle"@[0] == 'i' && "shell"@[0] == 's' && "waiting"@[0] == 'w');
}

/// A session is live whatever start time `ps` prints for its process, where its file recorded the
/// same words: however either is padded, and whatever lines stand around.
pub proof fn a_running_session_is_live(
    before: Seq<Seq<char>>,
    after: Seq<Seq<char>>,
    lead: Seq<char>,
    pid: u32,
    gap: Seq<char>,
    tty: Seq<char>,
    more: Seq<char>,
    start: Seq<char>,
    recorded: Seq<char>,
)
    requires
        all_ascii_white(lead),
        all_ascii_white(gap),
        gap.len() > 0,
        is_word(tty),
        all_ascii_white(more),
        more.len() > 0,
        words(start).len() > 0,
        forall|i: int|
            0 <= i < after.len() ==> (table_row(#[trigger] after[i]) matches Some((other, _))
                ==> other != pid),
    ensures
        is_live(
            table_of_lines(
                before.push(lead + decimal(pid as nat) + gap + tty + more + start) + after,
            ),
            pid,
            recorded,
        ) <==> words(recorded) == words(start),
{
    let line = lead + decimal(pid as nat) + gap + tty + more + start;
    a_process_line_is_read_whole(lead, pid, gap, tty, more, start);
    let facts = match table_row(line) {
        Some((_, facts)) => facts,
        None => arbitrary(),
    };
    a_told_process_is_in_the_table(before, line, after, pid, facts);
    padding_never_decides(recorded, start);
}

/// A session is live only by its own pid, and only where the table has the start time that its
/// file recorded, word for word.
pub proof fn liveness_is_the_start_time(
    table: Map<u32, ProcFactsModel>,
    pid: u32,
    recorded: Seq<char>,
)
    ensures
        is_live(table, pid, recorded) ==> table.contains_key(pid) && words(table[pid].lstart)
            == words(recorded),
        !table.contains_key(pid) ==> !is_live(table, pid, recorded),
{
    lemma_words_are_words(recorded);
    normalizing_keeps_the_words(recorded, words(recorded));
}

/// A live session is shown with its own file, and with what the table knows of its own process:
/// the account, the surface, and the terminal. Every session file that is live is so shown, and
/// no other.
pub proof fn a_live_session_is_shown_as_it_is(
    table: Map<u32, ProcFactsModel>,
    files: Seq<Option<SessionFileModel>>,
    file: SessionFileModel,
)
    ensures
        (files.contains(Some(file)) && table.contains_key(file.pid) && table[file.pid].lstart
            == normalized(file.proc_start)) <==> exists|k: int|
            #![trigger live_sessions(table, files)[k]]
            0 <= k < live_sessions(table, files).len() && live_sessions(table, files)[k].file
                == file,
        forall|k: int|
            0 <= k < live_sessions(table, files).len() ==> {
                let s = #[trigger] live_sessions(table, files)[k];
                s.account == table[s.file.pid].account && s.surface_id
                    == table[s.file.pid].surface_id && s.pts == table[s.file.pid].tty
            },
    decreases files.len(),
{
    let shown = live_sessions(table, files);
    let live = table.contains_key(file.pid) && table[file.pid].lstart == normalized(
        file.proc_start,
    );
    let told = LiveSessionModel {
        file,
        account: table[file.pid].account,
        surface_id: table[file.pid].surface_id,
        pts: table[file.pid].tty,
    };
    live_iff_running(table, files, told);
    if files.contains(Some(file)) && live {
        let i = choose|i: int| 0 <= i < files.len() && files[i] == Some(file);
        assert(file_is_live(table, files[i]));
        assert(shown.contains(told));
        let k = choose|k: int| 0 <= k < shown.len() && shown[k] == told;
        assert(shown[k].file == file);
    }
    assert forall|k: int| 0 <= k < shown.len() implies {
        let s = #[trigger] shown[k];
        &&& s.account == table[s.file.pid].account
        &&& s.surface_id == table[s.file.pid].surface_id
        &&& s.pts == table[s.file.pid].tty
        &&& files.contains(Some(s.file))
        &&& table.contains_key(s.file.pid)
        &&& table[s.file.pid].lstart == normalized(s.file.proc_start)
    } by {
        let s = shown[k];
        assert(shown.contains(s));
        live_iff_running(table, files, s);
        let i = choose|i: int|
            #![trigger files[i]]
            0 <= i < files.len() && file_is_live(table, files[i]) && s == attributed(
                files[i]->0,
                table[files[i]->0.pid],
            );
        assert(files[i] == Some(s.file));
    }
}

/// The tallies count the files: all of them, those that did not parse, those shown live, and the
/// rest as stale.
pub proof fn the_tallies_count_the_files(
    table: Map<u32, ProcFactsModel>,
    files: Seq<Option<SessionFileModel>>,
)
    requires
        files.len() <= usize::MAX,
    ensures
        scan_stats(table, files).total_files == files.len(),
        scan_stats(table, files).live == live_sessions(table, files).len(),
        scan_stats(table, files).parse_failed == files.filter(
            |f: Option<SessionFileModel>| f is None,
        ).len(),
        scan_stats(table, files).live + scan_stats(table, files).stale_dead + scan_stats(
            table,
            files,
        ).parse_failed == files.len(),
        !scan_stats(table, files).dir_unreadable,
        !scan_stats(table, files).procs_unavailable,
{
    every_file_is_accounted_for(table, files);
    lemma_failures_are_counted(files);
}

proof fn lemma_failures_are_counted(files: Seq<Option<SessionFileModel>>)
    ensures
        parse_failures(files) == files.filter(|f: Option<SessionFileModel>| f is None).len(),
    decreases files.len(),
{
    reveal(Seq::filter);
    if files.len() > 0 {
        lemma_failures_are_counted(files.drop_last());
    }
}

/// A new scan has counted nothing and flags nothing.
pub proof fn no_stats_are_none()
    ensures
        no_stats().total_files == 0 && no_stats().parse_failed == 0 && no_stats().stale_dead == 0
            && no_stats().live == 0 && !no_stats().dir_unreadable && !no_stats().procs_unavailable,
{
}

/// The start time is the twentieth word after the last closing paren, whatever precedes that.
pub proof fn fields_count_from_the_last_paren(comm: Seq<char>, rest: Seq<char>)
    requires
        !occurs(rest, ')'),
    ensures
        starttime_in(comm + seq![')'] + rest) == (if words(rest).len() >= 20 {
            Some(words(rest)[19])
        } else {
            None
        }),
        starttime_in(rest) is None,
{
    let stat = comm + seq![')'] + rest;
    nothing_follows_the_last(comm, ')', rest);
    assert(stat.skip(comm.len() as int + 1) =~= rest);
}

/// A session file is named for its process: something, and then the extension.
pub proof fn session_files_have_an_extension(name: Seq<char>)
    ensures
        names_session_file(name) <==> exists|stem: Seq<char>|
            stem.len() > 0 && name == #[trigger] (stem + ".json"@),
{
    reveal_strlit(".json");
    a_suffix_ends_the_text(name, ".json"@);
    if names_session_file(name) {
        let stem = choose|stem: Seq<char>| name == #[trigger] (stem + ".json"@);
        assert(stem.len() > 0);
    }
}

/// The models hold what the values hold.
pub proof fn session_models_hold_every_field(
    status: NativeStatus,
    file: SessionFile,
    session: LiveSession,
    files: Seq<Option<SessionFile>>,
)
    ensures
        status is Busy <==> status@ is Busy,
        status is Idle <==> status@ is Idle,
        status is Shell <==> status@ is Shell,
        status is Waiting <==> status@ is Waiting,
        status matches NativeStatus::Other(s) ==> status@ == NativeStatusModel::Other(s@),
        file@.pid == file.pid,
        file@.session_id == file.session_id@,
        file@.cwd == file.cwd@,
        file@.proc_start == file.proc_start@,
        file@.name == file.name@,
        file@.status == file.status@,
        file@.updated_at_ms == file.updated_at_ms,
        file.version matches Some(v) ==> file@.version == Some(v@),
        file.version is None ==> file@.version is None,
        session@.file == session.file@,
        session.account matches Some(v) ==> session@.account == Some(v@),
        session.account is None ==> session@.account is None,
        session.surface_id matches Some(v) ==> session@.surface_id == Some(v@),
        session.surface_id is None ==> session@.surface_id is None,
        session.pts matches Some(v) ==> session@.pts == Some(v@),
        session.pts is None ==> session@.pts is None,
        parsed_files(files).len() == files.len(),
        forall|i: int|
            0 <= i < files.len() ==> match files[i] {
                Some(f) => #[trigger] parsed_files(files)[i] == Some(f@),
                None => parsed_files(files)[i] is None,
            },
{
}

} // verus!
