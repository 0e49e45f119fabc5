//! The snapshot: the board's rows as one document, for automation.
//!
//! The document is built from the rows that the board shows, in the same order, so the two can
//! never disagree.

use vstd::prelude::*;
use vstd::string::*;
use crate::board::{PaneModel, RowModel, SessionRow};
use crate::discovery::ScanStats;
use crate::fold::status_name;
use crate::order::views_of;
use crate::text::opt_text;

verus! {

/// One session in the document.
#[derive(Debug, Clone, PartialEq, Eq)]
pub struct SessionJson {
    /// 1-based board row order.
    pub n: usize,
    pub name: String,
    /// Exact status name.
    pub status: &'static str,
    pub tokens: Option<u64>,
    pub ctx_pct: Option<u8>,
    /// Seconds since the transcript last grew: the raw age that the board humanizes.
    pub age_secs: Option<u64>,
    pub surface_id: Option<String>,
    pub tab_index: Option<u32>,
    pub cwd: String,
    pub session_id: String,
}

/// What a `SessionJson` stands for.
pub struct SessionJsonModel {
    pub n: usize,
    pub name: Seq<char>,
    pub status: Seq<char>,
    pub tokens: Option<u64>,
    pub ctx_pct: Option<u8>,
    pub age_secs: Option<u64>,
    pub surface_id: Option<Seq<char>>,
    pub tab_index: Option<u32>,
    pub cwd: Seq<char>,
    pub session_id: Seq<char>,
}

impl View for SessionJson {
    type V = SessionJsonModel;

    open spec fn view(&self) -> SessionJsonModel {
        SessionJsonModel {
            n: self.n,
            name: self.name@,
            status: self.status@,
            tokens: self.tokens,
            ctx_pct: self.ctx_pct,
            age_secs: self.age_secs,
            surface_id: opt_text(self.surface_id),
            tab_index: self.tab_index,
            cwd: self.cwd@,
            session_id: self.session_id@,
        }
    }
}

/// The document.
#[derive(Debug, Clone, PartialEq, Eq)]
pub struct SnapshotJson {
    pub focused_surface_id: Option<String>,
    pub sessions: Vec<SessionJson>,
}

/// The surface of a row's pane.
pub open spec fn surface_of(pane: Option<PaneModel>) -> Option<Seq<char>> {
    match pane {
        Some(p) => Some(p.surface_id),
        None => None,
    }
}

/// The tab position of a row's pane.
pub open spec fn tab_of(pane: Option<PaneModel>) -> Option<u32> {
    match pane {
        Some(p) => Some(p.tab_index),
        None => None,
    }
}

/// What the document says of the `i`-th row.
pub open spec fn session_json(row: RowModel, i: int) -> SessionJsonModel {
    SessionJsonModel {
        n: (i + 1) as usize,
        name: row.name,
        status: status_name(row.status),
        tokens: row.context_tokens,
        ctx_pct: row.ctx_pct,
        age_secs: row.secs_since_append,
        surface_id: surface_of(row.pane),
        tab_index: tab_of(row.pane),
        cwd: row.cwd,
        session_id: row.session_id,
    }
}

/// Builds the document from the focused surface and the board's rows.
pub fn snapshot_of(focused_surface_id: Option<String>, rows: &[SessionRow]) -> (r: SnapshotJson)
    ensures
        r.focused_surface_id == focused_surface_id,
        views_of(r.sessions@) == Seq::new(
            rows@.len(),
            |i: int| session_json(views_of(rows@)[i], i),
        ),
        r.sessions@.len() == rows@.len(),
        forall|i: int|
            #![trigger r.sessions@[i]]
            0 <= i < rows@.len() ==> r.sessions@[i].n == i + 1 && r.sessions@[i].name@
                == rows@[i].name@ && r.sessions@[i].cwd@ == rows@[i].cwd@
                && r.sessions@[i].session_id@ == rows@[i].session_id@ && r.sessions@[i].status@
                == status_name(rows@[i].status) && r.sessions@[i].tokens == rows@[i].context_tokens
                && r.sessions@[i].ctx_pct == rows@[i].ctx_pct && r.sessions@[i].age_secs
                == rows@[i].secs_since_append,
{
    let mut sessions: Vec<SessionJson> = Vec::new();
    let mut i: usize = 0;
    while i < rows.len()
        invariant
            i <= rows.len(),
            sessions@.len() == i,
            forall|k: int| 0 <= k < i ==> #[trigger] sessions@[k]@ == session_json(rows@[k]@, k),
        decreases rows.len() - i,
    {
        let row = &rows[i];
        let (surface_id, tab_index) = match &row.pane {
            Some(p) => (Some(p.surface_id.clone()), Some(p.tab_index)),
            None => (None, None),
        };
        sessions.push(
            SessionJson {
                n: i + 1,
                name: row.name.clone(),
                status: row.status.name(),
                tokens: row.context_tokens,
                ctx_pct: row.ctx_pct,
                age_secs: row.secs_since_append,
                surface_id,
                tab_index,
                cwd: row.cwd.clone(),
                session_id: row.session_id.clone(),
            },
        );
        i += 1;
    }
    assert(views_of(sessions@) =~= Seq::new(
        rows@.len(),
        |i: int| session_json(views_of(rows@)[i], i),
    ));
    assert forall|i: int|
        #![trigger sessions@[i]]
        0 <= i < rows@.len() implies sessions@[i].n == i + 1 && sessions@[i].name@ == rows@[i].name@
        && sessions@[i].cwd@ == rows@[i].cwd@ && sessions@[i].session_id@ == rows@[i].session_id@
        && sessions@[i].status@ == status_name(rows@[i].status) && sessions@[i].tokens
        == rows@[i].context_tokens && sessions@[i].ctx_pct == rows@[i].ctx_pct
        && sessions@[i].age_secs == rows@[i].secs_since_append by {
        assert(sessions@[i]@ == session_json(rows@[i]@, i));
    }
    SnapshotJson { focused_surface_id, sessions }
}

/// Whether the scan succeeded, as the doctor judges it: the sessions directory could be read, and
/// the process table could be fetched. An empty fleet is a success; a broken sensor is not one.
pub fn scan_ok(stats: &ScanStats) -> (r: bool)
    ensures
        r == (!stats.dir_unreadable && !stats.procs_unavailable),
{
    crate::doctor::scan_ok(stats)
}

/// The document for a scan that crashed: not a clean, empty snapshot.
pub fn crashed_document(reason: &str) -> (r: String)
    ensures
        r@ == "{\"error\":\"snapshot scan task failed: "@ + reason@ + "\"}"@,
{
    let mut out = "{\"error\":\"snapshot scan task failed: ".to_owned();
    out.append(reason);
    out.append("\"}");
    out
}

/// The document tells of each row at its place, counted from one: its name, directory, session and
/// context, the age of its transcript, its status by name, and the surface and tab it jumps to.
pub proof fn each_row_is_told_at_its_place(row: RowModel, i: int)
    requires
        0 <= i < usize::MAX,
    ensures
        ({
            let told = session_json(row, i);
            &&& told.n == i + 1
            &&& told.name == row.name
            &&& told.status == status_name(row.status)
            &&& told.tokens == row.context_tokens
            &&& told.ctx_pct == row.ctx_pct
            &&& told.age_secs == row.secs_since_append
            &&& told.cwd == row.cwd
            &&& told.session_id == row.session_id
            &&& match row.pane {
                Some(pane) => told.surface_id == Some(pane.surface_id) && told.tab_index == Some(
                    pane.tab_index,
                ),
                None => told.surface_id is None && told.tab_index is None,
            }
        }),
{
}

/// A model of a session in the document holds each field of it.
pub proof fn snapshot_models_hold_every_field(s: SessionJson)
    ensures
        s@.n == s.n,
        s@.name == s.name@,
        s@.status == s.status@,
        s@.tokens == s.tokens,
        s@.ctx_pct == s.ctx_pct,
        s@.age_secs == s.age_secs,
        match (s.surface_id, s@.surface_id) {
            (Some(a), Some(b)) => a@ == b,
            (None, None) => true,
            _ => false,
        },
        s@.tab_index == s.tab_index,
        s@.cwd == s.cwd@,
        s@.session_id == s.session_id@,
{
}

} // verus!
