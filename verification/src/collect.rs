//! The one sensor pipeline: sessions, telemetry, surfaces and Codex processes to sorted rows.
//!
//! The live board and the snapshot both take their rows from here, so their numbers never
//! disagree. A failed process table is not an empty fleet: liveness is unknowable then, and that
//! is flagged rather than shown as a clean, empty, wrong board.

use std::collections::HashMap;
use vstd::prelude::*;
use vstd::string::*;
use crate::board::{assemble, session_rows, sort_rows, RowModel, SessionRow};
use crate::cmux::{fetched_surfaces, Surface, SurfaceCache, SurfaceModel};
use crate::codex::{scanned_row, ProcInfo, RolloutCandidate};
use crate::discovery::{
    an_empty_table_shows_nothing, live_sessions, no_stats, parsed_files, scan, scan_stats,
    LiveSession, LiveSessionModel, ScanStats, SessionFile, SessionFileModel,
};
use crate::error::{error_text, AppResult};
use crate::lastgood::{lane_error, last_good_after};
use crate::order::{
    a_sorted_list_holds_the_same, same_rank, sorting_in_two_steps, sorting_keeps_every_element,
    stable_sort_is_unique, stable_sort_of, views_of, Ranked,
};
use crate::procsrc::{table_model, ProcFactsModel, ProcTable};
use crate::telemetry::{Telemetry, TelemetryModel};
use crate::text::opt_text;

verus! {

broadcast use vstd::std_specs::hash::group_hash_axioms;

/// The processes a table fetch came to: none where it failed.
pub open spec fn procs_or_none(result: AppResult<ProcTable>) -> Map<u32, ProcFactsModel> {
    match result {
        Ok(table) => table_model(table),
        Err(_) => Map::empty(),
    }
}

/// What the footer says of a table fetch.
pub open spec fn table_error(result: AppResult<ProcTable>) -> Option<Seq<char>> {
    match result {
        Ok(_) => None,
        Err(e) => Some("process table: "@ + error_text(e)),
    }
}

/// The live sessions of one pass.
#[derive(Debug)]
pub struct Discovered {
    /// Live sessions, in scan order.
    pub sessions: Vec<LiveSession>,
    /// Discovery tallies.
    pub stats: ScanStats,
    /// How the process table failed, if it did.
    pub proc_error: Option<String>,
}

/// Discovers the live sessions. `files` holds each session file as far as it parsed, or is `None`
/// where the directory could not be read; the process table is handed in as it was fetched.
pub fn discover(
    files: Option<Vec<Option<SessionFile>>>,
    procs_result: AppResult<ProcTable>,
) -> (r: Discovered)
    ensures
        opt_text(r.proc_error) == table_error(procs_result),
        match files {
            Some(files) => {
                &&& views_of(r.sessions@) == live_sessions(
                    procs_or_none(procs_result),
                    parsed_files(files@),
                )
                &&& r.stats == (ScanStats {
                    procs_unavailable: procs_result is Err,
                    ..scan_stats(procs_or_none(procs_result), parsed_files(files@))
                })
            },
            None => r.sessions@.len() == 0 && r.stats == (ScanStats {
                dir_unreadable: true,
                procs_unavailable: procs_result is Err,
                ..no_stats()
            }),
        },
        procs_result is Err ==> r.sessions@.len() == 0,
{
    let ghost procs = procs_or_none(procs_result);
    let (table, proc_error) = match procs_result {
        Ok(table) => (table, None),
        Err(e) => {
            let mut text = "process table: ".to_owned();
            text.append(e.message().as_str());
            let none: ProcTable = HashMap::new();
            (none, Some(text))
        },
    };
    assert(table_model(table) =~= procs);
    let (sessions, scanned) = scan(files, &table);
    let mut stats = scanned;
    stats.procs_unavailable = proc_error.is_some();
    proof {
        if procs_result is Err && files is Some {
            an_empty_table_shows_nothing(parsed_files(files->0@));
            assert(views_of(sessions@).len() == 0);
        }
    }
    Discovered { sessions, stats, proc_error }
}

/// What one pass sampled of the Codex processes. Tails and branches are parallel to them.
#[derive(Debug)]
pub struct CodexSample {
    /// When the sample was taken, in epoch seconds.
    pub now_secs: u64,
    /// The live processes.
    pub proc_infos: Vec<ProcInfo>,
    /// The rollouts they may be joined to.
    pub candidates: Vec<RolloutCandidate>,
    /// For each process, the tail of the rollout it is joined to.
    pub tails: Vec<Vec<u8>>,
    /// For each process, the branch checked out in its directory.
    pub branches: Vec<Option<String>>,
}

/// The rows of the sampled Codex processes.
pub open spec fn codex_rows(sample: CodexSample, surfaces: Seq<SurfaceModel>) -> Seq<RowModel> {
    Seq::new(
        sample.proc_infos@.len(),
        |i: int|
            scanned_row(
                sample.now_secs,
                views_of(sample.proc_infos@),
                views_of(sample.candidates@),
                sample.tails@,
                sample.branches@,
                surfaces,
                i,
            ),
    )
}

/// One full sensor pass.
#[derive(Debug)]
pub struct Collected {
    /// Sorted rows, of both agents.
    pub rows: Vec<SessionRow>,
    /// Discovery tallies.
    pub stats: ScanStats,
    /// A degraded lane; the rows are still valid.
    pub lane_error: Option<String>,
    /// How many of the rows are Codex processes.
    pub codex_count: usize,
}

/// The more severe of two errors: a dead process table empties the board, a degraded topology
/// only costs the pane column.
pub open spec fn severest(
    proc_error: Option<Seq<char>>,
    surface_error: Option<Seq<char>>,
) -> Option<Seq<char>> {
    match proc_error {
        Some(e) => Some(e),
        None => surface_error,
    }
}

/// Every row reaches the board: each of the sessions' and each of the Codex processes', however
/// often it occurs.
pub proof fn every_row_reaches_the_board(
    sessions: Seq<RowModel>,
    codex: Seq<RowModel>,
    board: Seq<RowModel>,
)
    requires
        stable_sort_of::<SessionRow>(sessions + codex, board),
    ensures
        board.to_multiset() == sessions.to_multiset().add(codex.to_multiset()),
{
    sorting_keeps_every_element::<SessionRow>(sessions + codex, board);
    vstd::seq_lib::lemma_multiset_commutative(sessions, codex);
}

/// Folds one pass into sorted rows, reusing the surface cache. Telemetry and branches are
/// parallel to the discovered sessions.
pub fn collect(
    discovered: Discovered,
    telemetry: &[Telemetry],
    branches: &[Option<String>],
    surface_cache: &mut SurfaceCache,
    surfaces_result: AppResult<Vec<Surface>>,
    codex: &CodexSample,
) -> (r: Collected)
    ensures
        final(surface_cache)@ == last_good_after(
            old(surface_cache)@,
            fetched_surfaces(surfaces_result),
        ),
        stable_sort_of::<SessionRow>(
            session_rows(
                views_of(discovered.sessions@),
                views_of(telemetry@),
                branches@,
                final(surface_cache)@,
            ) + codex_rows(*codex, final(surface_cache)@),
            views_of(r.rows@),
        ),
        r.stats == discovered.stats,
        opt_text(r.lane_error) == severest(
            opt_text(discovered.proc_error),
            lane_error(fetched_surfaces(surfaces_result)),
        ),
        r.codex_count == codex.proc_infos@.len(),
{
    let (surfaces, surface_error) = surface_cache.fold(surfaces_result);
    let lane = match discovered.proc_error {
        Some(e) => Some(e),
        None => surface_error,
    };
    let mut rows = assemble(
        discovered.sessions.as_slice(),
        telemetry,
        branches,
        surfaces.as_slice(),
    );
    let ghost first = session_rows(
        views_of(discovered.sessions@),
        views_of(telemetry@),
        branches@,
        views_of(surfaces@),
    );
    let ghost first_sorted = views_of(rows@);
    let mut more = crate::codex::scan(
        codex.now_secs,
        codex.proc_infos.as_slice(),
        codex.candidates.as_slice(),
        codex.tails.as_slice(),
        codex.branches.as_slice(),
        surfaces.as_slice(),
    );
    let codex_count = more.len();
    let ghost added = views_of(more@);
    assert(added =~= codex_rows(*codex, views_of(surfaces@)));
    rows.append(&mut more);
    assert(views_of(rows@) =~= first_sorted + added);
    sort_rows(rows.as_mut_slice());
    proof {
        sorting_in_two_steps::<SessionRow>(first, first_sorted, added, views_of(rows@));
    }
    Collected { rows, stats: discovered.stats, lane_error: lane, codex_count }
}

/// A failed process table is never a clean, empty fleet: no session is shown, and the scan does
/// not count as a success.
pub proof fn a_failed_table_is_no_empty_fleet(
    stats: ScanStats,
    procs_result: AppResult<ProcTable>,
    files: Seq<Option<SessionFileModel>>,
)
    requires
        procs_result is Err,
        stats == (ScanStats {
            procs_unavailable: procs_result is Err,
            ..scan_stats(procs_or_none(procs_result), files)
        }),
    ensures
        live_sessions(procs_or_none(procs_result), files).len() == 0,
        stats.live == 0,
        stats.procs_unavailable,
        table_error(procs_result) is Some,
{
    an_empty_table_shows_nothing(files);
}

/// A row without what the topology decides.
pub open spec fn bare(row: RowModel) -> RowModel {
    RowModel { pane: None, stream: None, ..row }
}

/// Rows without what the topology decides.
pub open spec fn all_bare(rows: Seq<RowModel>) -> Seq<RowModel> {
    Seq::new(rows.len(), |i: int| bare(rows[i]))
}

/// Rank looks at neither pane nor stream, so picking the rows of a rank and baring them commute.
proof fn lemma_bare_filter(rows: Seq<RowModel>, x: RowModel)
    ensures
        all_bare(rows).filter(same_rank::<SessionRow>(x)) == all_bare(
            rows.filter(same_rank::<SessionRow>(x)),
        ),
    decreases rows.len(),
{
    reveal(Seq::filter);
    let p = same_rank::<SessionRow>(x);
    if rows.len() == 0 {
        assert(all_bare(rows).filter(p) =~= all_bare(rows.filter(p)));
    } else {
        let front = rows.drop_last();
        lemma_bare_filter(front, x);
        assert(all_bare(rows).drop_last() =~= all_bare(front));
        assert(all_bare(rows).last() == bare(rows.last()));
        assert(p(bare(rows.last())) == p(rows.last()));
        assert(all_bare(rows).filter(p) =~= all_bare(rows.filter(p)));
    }
}

/// Sorting rows and baring them commute.
proof fn lemma_bare_sort(rows: Seq<RowModel>, board: Seq<RowModel>)
    requires
        stable_sort_of::<SessionRow>(rows, board),
    ensures
        stable_sort_of::<SessionRow>(all_bare(rows), all_bare(board)),
{
    let (r, b) = (all_bare(rows), all_bare(board));
    assert forall|i: int, j: int| 0 <= i < j < b.len() implies SessionRow::le(
        #[trigger] b[i],
        #[trigger] b[j],
    ) by {
        assert(SessionRow::le(board[i], board[j]));
    }
    assert forall|x: RowModel| #[trigger]
        b.filter(same_rank::<SessionRow>(x)) == r.filter(same_rank::<SessionRow>(x)) by {
        lemma_bare_filter(rows, x);
        lemma_bare_filter(board, x);
        assert(board.filter(same_rank::<SessionRow>(x)) == rows.filter(
            same_rank::<SessionRow>(x),
        ));
    }
}

/// Two passes that differ in nothing but the topology show the same board but for panes and
/// streams: the same rows, of both agents, in the same places.
pub proof fn topology_moves_no_row(
    sessions: Seq<LiveSessionModel>,
    telemetry: Seq<TelemetryModel>,
    branches: Seq<Option<String>>,
    codex: CodexSample,
    a: Seq<SurfaceModel>,
    b: Seq<SurfaceModel>,
    board_a: Seq<RowModel>,
    board_b: Seq<RowModel>,
)
    requires
        stable_sort_of::<SessionRow>(
            session_rows(sessions, telemetry, branches, a) + codex_rows(codex, a),
            board_a,
        ),
        stable_sort_of::<SessionRow>(
            session_rows(sessions, telemetry, branches, b) + codex_rows(codex, b),
            board_b,
        ),
    ensures
        all_bare(board_a) == all_bare(board_b),
{
    let rows_a = session_rows(sessions, telemetry, branches, a) + codex_rows(codex, a);
    let rows_b = session_rows(sessions, telemetry, branches, b) + codex_rows(codex, b);
    assert(all_bare(rows_a) =~= all_bare(rows_b));
    lemma_bare_sort(rows_a, board_a);
    lemma_bare_sort(rows_b, board_b);
    stable_sort_is_unique::<SessionRow>(all_bare(rows_a), all_bare(board_a), all_bare(board_b));
}

/// Every session with telemetry and every Codex process has its row on the board, which tells its
/// own directory, and of a session its own id; every row is one of them.
#[verifier::rlimit(40)]
pub proof fn both_agents_reach_the_board(
    sessions: Seq<LiveSessionModel>,
    telemetry: Seq<TelemetryModel>,
    branches: Seq<Option<String>>,
    codex: CodexSample,
    surfaces: Seq<SurfaceModel>,
    board: Seq<RowModel>,
)
    requires
        stable_sort_of::<SessionRow>(
            session_rows(sessions, telemetry, branches, surfaces) + codex_rows(codex, surfaces),
            board,
        ),
    ensures
        board.len() == (if sessions.len() <= telemetry.len() {
            sessions.len()
        } else {
            telemetry.len()
        }) + codex.proc_infos@.len(),
        forall|i: int|
            #![trigger sessions[i]]
            0 <= i < sessions.len() && i < telemetry.len() ==> exists|k: int|
                #![trigger board[k]]
                0 <= k < board.len() && board[k].session_id == sessions[i].file.session_id
                    && board[k].cwd == sessions[i].file.cwd && board[k].account
                    == sessions[i].account,
        forall|i: int|
            #![trigger codex.proc_infos@[i]]
            0 <= i < codex.proc_infos@.len() ==> exists|k: int|
                #![trigger board[k]]
                0 <= k < board.len() && board[k].cwd == codex.proc_infos@[i].cwd@
                    && board[k].account == Some("codex"@),
        forall|k: int|
            #![trigger board[k]]
            0 <= k < board.len() ==> (exists|i: int|
                #![trigger sessions[i]]
                0 <= i < sessions.len() && i < telemetry.len() && board[k].session_id
                    == sessions[i].file.session_id && board[k].cwd == sessions[i].file.cwd) || (
            exists|i: int|
                #![trigger codex.proc_infos@[i]]
                0 <= i < codex.proc_infos@.len() && board[k].cwd == codex.proc_infos@[i].cwd@
                    && board[k].account == Some("codex"@)),
{
    let a = session_rows(sessions, telemetry, branches, surfaces);
    let b = codex_rows(codex, surfaces);
    let all = a + b;
    a_sorted_list_holds_the_same::<SessionRow>(all, board);
    assert forall|i: int|
        #![trigger sessions[i]]
        0 <= i < sessions.len() && i < telemetry.len() implies exists|k: int|
        #![trigger board[k]]
        0 <= k < board.len() && board[k].session_id == sessions[i].file.session_id && board[k].cwd
            == sessions[i].file.cwd && board[k].account == sessions[i].account by {
        assert(all[i] == a[i]);
        assert(board.contains(all[i]));
        let k = choose|k: int| 0 <= k < board.len() && board[k] == all[i];
        assert(board[k] == a[i]);
    }
    assert forall|i: int|
        #![trigger codex.proc_infos@[i]]
        0 <= i < codex.proc_infos@.len() implies exists|k: int|
        #![trigger board[k]]
        0 <= k < board.len() && board[k].cwd == codex.proc_infos@[i].cwd@ && board[k].account
            == Some("codex"@) by {
        assert(all[a.len() + i] == b[i]);
        assert(board.contains(all[a.len() + i]));
        let k = choose|k: int| 0 <= k < board.len() && board[k] == all[a.len() + i];
        assert(board[k] == b[i]);
    }
    assert forall|k: int|
        #![trigger board[k]]
        0 <= k < board.len() implies (exists|i: int|
        #![trigger sessions[i]]
        0 <= i < sessions.len() && i < telemetry.len() && board[k].session_id
            == sessions[i].file.session_id && board[k].cwd == sessions[i].file.cwd) || (exists|
        i: int,
    |
        #![trigger codex.proc_infos@[i]]
        0 <= i < codex.proc_infos@.len() && board[k].cwd == codex.proc_infos@[i].cwd@
            && board[k].account == Some("codex"@)) by {
        assert(all.contains(board[k]));
        let m = choose|m: int| 0 <= m < all.len() && all[m] == board[k];
        if m < a.len() {
            assert(a[m] == board[k]);
            assert(sessions[m].file.cwd == board[k].cwd);
        } else {
            let i = m - a.len();
            assert(b[i] == board[k]);
            assert(codex.proc_infos@[i].cwd@ == board[k].cwd);
        }
    }
}

/// A dead process table is reported before a degraded topology, and either is reported: the lane
/// is silent only where both are.
pub proof fn the_severest_error_is_reported(
    proc_error: Option<Seq<char>>,
    surface_error: Option<Seq<char>>,
)
    ensures
        severest(proc_error, surface_error) is None <==> proc_error is None && surface_error
            is None,
        proc_error is Some ==> severest(proc_error, surface_error) == proc_error,
        proc_error is None ==> severest(proc_error, surface_error) == surface_error,
{
}

/// A fetched process table is used as it is and reports nothing; a failed one holds no process,
/// and its error is reported as the process table's.
pub proof fn a_table_is_used_or_reported(result: AppResult<ProcTable>, pid: u32)
    ensures
        match result {
            Ok(table) => procs_or_none(result) == table_model(table) && table_error(result) is None,
            Err(e) => !procs_or_none(result).contains_key(pid) && table_error(result) == Some(
                "process table: "@ + error_text(e),
            ),
        },
{
}

/// Each sampled Codex process has its own row.
pub proof fn each_sampled_process_has_its_row(sample: CodexSample, surfaces: Seq<SurfaceModel>)
    ensures
        codex_rows(sample, surfaces).len() == sample.proc_infos@.len(),
        forall|i: int|
            #![trigger codex_rows(sample, surfaces)[i]]
            0 <= i < sample.proc_infos@.len() ==> codex_rows(sample, surfaces)[i].cwd
                == sample.proc_infos@[i].cwd@ && (sample.proc_infos@[i].surface_id is None
                ==> codex_rows(sample, surfaces)[i].pts is None && codex_rows(
                sample,
                surfaces,
            )[i].pane is None),
{
}

} // verus!
