//! Board assembly: sessions, telemetry and surfaces joined into sorted rows.
//!
//! A session's surface is the one its environment names, or none: surface ids are unique, so
//! there is nothing to guess. Rows that ask for attention come first.

use vstd::prelude::*;
use vstd::string::*;
use crate::cmux::{Surface, SurfaceModel};
use crate::discovery::{LiveSession, LiveSessionModel};
use crate::fold::{bucket, folded, sort_key, status, Status};
use crate::number::{decimal, decimal_text};
use crate::order::{a_sorted_list_holds_the_same, stable_sort, stable_sort_of, views_of, Ranked};
use crate::telemetry::{
    clamped_pct, context_window, ctx_used_pct, no_facts, percent, TailFacts, Telemetry,
    TelemetryModel,
};
use crate::text::{
    after_last, chars_of, last_position, lemma_text_le_total, lemma_text_le_transitive,
    len_without_trailing, nothing_follows_the_last, occurs, only_the_trailing_are_cut, opt_text,
    same_text, text_before, text_le, without_trailing,
};

verus! {

/// The surface a session resolved to: the id for the jump, its position for the board.
#[derive(Debug, PartialEq, Eq)]
pub struct MatchedPane {
    /// The surface UUID: the jump target.
    pub surface_id: String,
    /// 1-based window position.
    pub window_index: u32,
    /// 1-based tab (workspace) position within its window.
    pub tab_index: u32,
    /// The workspace name: the stream of work the surface belongs to.
    pub stream: String,
}

/// What a `MatchedPane` stands for.
pub struct PaneModel {
    pub surface_id: Seq<char>,
    pub window_index: u32,
    pub tab_index: u32,
    pub stream: Seq<char>,
}

impl View for MatchedPane {
    type V = PaneModel;

    open spec fn view(&self) -> PaneModel {
        PaneModel {
            surface_id: self.surface_id@,
            window_index: self.window_index,
            tab_index: self.tab_index,
            stream: self.stream@,
        }
    }
}

impl Clone for MatchedPane {
    fn clone(&self) -> (r: Self)
        ensures
            r@ == self@,
    {
        MatchedPane {
            surface_id: self.surface_id.clone(),
            window_index: self.window_index,
            tab_index: self.tab_index,
            stream: self.stream.clone(),
        }
    }
}

/// The pane that a surface makes.
pub open spec fn pane_of(surface: SurfaceModel) -> PaneModel {
    PaneModel {
        surface_id: surface.id,
        window_index: surface.window_index,
        tab_index: surface.tab_index,
        stream: surface.name,
    }
}

/// The model of an optional pane.
pub open spec fn opt_pane(pane: Option<MatchedPane>) -> Option<PaneModel> {
    match pane {
        Some(p) => Some(p@),
        None => None,
    }
}

impl MatchedPane {
    fn from_surface(s: &Surface) -> (r: Self)
        ensures
            r@ == pane_of(s@),
    {
        MatchedPane {
            surface_id: s.id.clone(),
            window_index: s.window_index,
            tab_index: s.tab_index,
            stream: s.name.clone(),
        }
    }
}

/// The pane of the first surface with the given id.
pub open spec fn pane_with_id(id: Seq<char>, surfaces: Seq<SurfaceModel>) -> Option<PaneModel>
    decreases surfaces.len(),
{
    if surfaces.len() == 0 {
        None
    } else if surfaces[0].id == id {
        Some(pane_of(surfaces[0]))
    } else {
        pane_with_id(id, surfaces.drop_first())
    }
}

/// The pane that a session resolves to: that of the surface it names, if it names one that is
/// there.
pub open spec fn matched_pane(
    surface_id: Option<Seq<char>>,
    surfaces: Seq<SurfaceModel>,
) -> Option<PaneModel> {
    match surface_id {
        Some(id) => pane_with_id(id, surfaces),
        None => None,
    }
}

/// The text of an optional string slice.
pub open spec fn opt_str(s: Option<&str>) -> Option<Seq<char>> {
    match s {
        Some(s) => Some(s@),
        None => None,
    }
}

/// An optional string, borrowed.
pub fn borrowed(s: &Option<String>) -> (r: Option<&str>)
    ensures
        opt_str(r) == opt_text(*s),
{
    match s {
        Some(s) => Some(s.as_str()),
        None => None,
    }
}

/// Matches a session to its surface by exact id. A session without a surface id isn't running
/// under cmux; an id absent from the list means the surface closed since. Both are "no match",
/// never a guess.
pub fn match_surface(surface_id: Option<&str>, surfaces: &[Surface]) -> (r: Option<MatchedPane>)
    ensures
        opt_pane(r) == matched_pane(opt_str(surface_id), views_of(surfaces@)),
{
    let wanted = match surface_id {
        Some(id) => id,
        None => {
            return None;
        },
    };
    let ghost all = views_of(surfaces@);
    let mut i: usize = 0;
    assert(all.skip(0) =~= all);
    while i < surfaces.len()
        invariant
            i <= surfaces.len(),
            surface_id == Some(wanted),
            all == views_of(surfaces@),
            pane_with_id(wanted@, all) == pane_with_id(wanted@, all.skip(i as int)),
        decreases surfaces.len() - i,
    {
        assert(all.skip(i as int)[0] == surfaces@[i as int]@);
        assert(all.skip(i as int).drop_first() =~= all.skip(i + 1));
        if same_text(surfaces[i].id.as_str(), wanted) {
            return Some(MatchedPane::from_surface(&surfaces[i]));
        }
        i += 1;
    }
    None
}

/// A matched pane is that of a surface in the list, and its id is the one that was asked for;
/// no match means that no surface has that id.
pub proof fn a_match_is_exact(id: Seq<char>, surfaces: Seq<SurfaceModel>)
    ensures
        match pane_with_id(id, surfaces) {
            Some(pane) => pane.surface_id == id && exists|i: int|
                #![trigger surfaces[i]]
                0 <= i < surfaces.len() && pane == pane_of(surfaces[i]),
            None => forall|i: int| 0 <= i < surfaces.len() ==> #[trigger] surfaces[i].id != id,
        },
    decreases surfaces.len(),
{
    if surfaces.len() > 0 && surfaces[0].id != id {
        let rest = surfaces.drop_first();
        a_match_is_exact(id, rest);
        match pane_with_id(id, rest) {
            Some(pane) => {
                let k = choose|k: int|
                    #![trigger rest[k]]
                    0 <= k < rest.len() && pane == pane_of(rest[k]);
                assert(surfaces[k + 1] == rest[k]);
            },
            None => {
                assert forall|i: int| 0 <= i < surfaces.len() implies #[trigger] surfaces[i].id
                    != id by {
                    if i > 0 {
                        assert(rest[i - 1] == surfaces[i]);
                    }
                }
            },
        }
    }
}

/// With unique ids, whatever else the surfaces share, each is matched by its own id.
pub proof fn unique_ids_match_themselves(surfaces: Seq<SurfaceModel>, i: int)
    requires
        0 <= i < surfaces.len(),
        forall|j: int, k: int|
            0 <= j < k < surfaces.len() ==> (#[trigger] surfaces[j]).id != (
            #[trigger] surfaces[k]).id,
    ensures
        pane_with_id(surfaces[i].id, surfaces) == Some(pane_of(surfaces[i])),
{
    a_match_is_exact(surfaces[i].id, surfaces);
}

/// One board row: a live session with everything the view renders.
#[derive(Debug, PartialEq, Eq)]
pub struct SessionRow {
    /// Session UUID: identity.
    pub session_id: String,
    /// The transcript's title if there is one, else the native derived name.
    pub name: String,
    /// The account, if attributed.
    pub account: Option<String>,
    /// Folded status.
    pub status: Status,
    /// Session working directory.
    pub cwd: String,
    /// Context tokens; `None` where there is no transcript yet.
    pub context_tokens: Option<u64>,
    /// Context percent used; `None` where there is no telemetry yet.
    pub ctx_pct: Option<u8>,
    /// Seconds since the transcript last grew.
    pub secs_since_append: Option<u64>,
    /// The stream of work: the matched surface's workspace name.
    pub stream: Option<String>,
    /// The branch checked out in the working directory.
    pub branch: Option<String>,
    /// Matched surface: the jump target.
    pub pane: Option<MatchedPane>,
    /// The session's terminal, carried only when the session renders in a surface.
    pub pts: Option<String>,
}

/// What a `SessionRow` stands for.
pub struct RowModel {
    pub session_id: Seq<char>,
    pub name: Seq<char>,
    pub account: Option<Seq<char>>,
    pub status: Status,
    pub cwd: Seq<char>,
    pub context_tokens: Option<u64>,
    pub ctx_pct: Option<u8>,
    pub secs_since_append: Option<u64>,
    pub stream: Option<Seq<char>>,
    pub branch: Option<Seq<char>>,
    pub pane: Option<PaneModel>,
    pub pts: Option<Seq<char>>,
}

impl View for SessionRow {
    type V = RowModel;

    open spec fn view(&self) -> RowModel {
        RowModel {
            session_id: self.session_id@,
            name: self.name@,
            account: opt_text(self.account),
            status: self.status,
            cwd: self.cwd@,
            context_tokens: self.context_tokens,
            ctx_pct: self.ctx_pct,
            secs_since_append: self.secs_since_append,
            stream: opt_text(self.stream),
            branch: opt_text(self.branch),
            pane: opt_pane(self.pane),
            pts: opt_text(self.pts),
        }
    }
}

impl Clone for SessionRow {
    fn clone(&self) -> (r: Self)
        ensures
            r@ == self@,
    {
        SessionRow {
            session_id: self.session_id.clone(),
            name: self.name.clone(),
            account: self.account.clone(),
            status: self.status,
            cwd: self.cwd.clone(),
            context_tokens: self.context_tokens,
            ctx_pct: self.ctx_pct,
            secs_since_append: self.secs_since_append,
            stream: self.stream.clone(),
            branch: self.branch.clone(),
            pane: match &self.pane {
                Some(p) => Some(p.clone()),
                None => None,
            },
            pts: self.pts.clone(),
        }
    }
}

/// Rows rank by attention bucket, then by name.
impl Ranked for SessionRow {
    open spec fn le(a: RowModel, b: RowModel) -> bool {
        bucket(a.status) < bucket(b.status) || (bucket(a.status) == bucket(b.status) && text_le(
            a.name,
            b.name,
        ))
    }

    proof fn le_total(a: RowModel, b: RowModel) {
        lemma_text_le_total(a.name, b.name);
    }

    proof fn le_transitive(a: RowModel, b: RowModel, c: RowModel) {
        if text_le(a.name, b.name) && text_le(b.name, c.name) {
            lemma_text_le_transitive(a.name, b.name, c.name);
        }
    }

    fn not_after(&self, other: &Self) -> (r: bool) {
        let (a, b) = (sort_key(self.status), sort_key(other.status));
        a < b || (a == b && text_before(self.name.as_str(), other.name.as_str()))
    }
}

/// Sorts rows: attention buckets first, then by name. Rows alike in both keep their order.
pub fn sort_rows(rows: &mut [SessionRow])
    ensures
        stable_sort_of::<SessionRow>(views_of(old(rows)@), views_of(final(rows)@)),
        final(rows)@.len() == old(rows)@.len(),
{
    stable_sort(rows);
}

/// On a sorted board no row stands before one whose status asks for attention sooner, and
/// within a bucket the names are in order.
pub proof fn attention_comes_first(input: Seq<RowModel>, board: Seq<RowModel>, i: int, j: int)
    requires
        stable_sort_of::<SessionRow>(input, board),
        0 <= i < j < board.len(),
    ensures
        bucket(board[i].status) <= bucket(board[j].status),
        bucket(board[i].status) == bucket(board[j].status) ==> text_le(
            board[i].name,
            board[j].name,
        ),
{
    assert(SessionRow::le(board[i], board[j]));
}

/// What a row is called: the transcript's title, unless it is missing or empty.
pub open spec fn row_name(ai_title: Option<Seq<char>>, native: Seq<char>) -> Seq<char> {
    match ai_title {
        Some(title) => if title.len() > 0 {
            title
        } else {
            native
        },
        None => native,
    }
}

/// The stream of a row: that of its pane.
pub open spec fn stream_of(pane: Option<PaneModel>) -> Option<Seq<char>> {
    match pane {
        Some(p) => Some(p.stream),
        None => None,
    }
}

/// The terminal that a row may be highlighted in: the session's, if it renders in a surface.
pub open spec fn highlight_target(
    surface_id: Option<Seq<char>>,
    pts: Option<Seq<char>>,
) -> Option<Seq<char>> {
    if surface_id is Some {
        pts
    } else {
        None
    }
}

/// The row of one session.
pub open spec fn session_row(
    session: LiveSessionModel,
    tel: TelemetryModel,
    branch: Option<Seq<char>>,
    surfaces: Seq<SurfaceModel>,
) -> RowModel {
    let facts = match tel.facts {
        Some(facts) => facts,
        None => no_facts(),
    };
    let pane = matched_pane(session.surface_id, surfaces);
    RowModel {
        session_id: session.file.session_id,
        name: row_name(facts.ai_title, session.file.name),
        account: session.account,
        status: folded(session.file.status, facts.pending_question, tel.secs_since_append),
        cwd: session.file.cwd,
        context_tokens: facts.context_tokens,
        ctx_pct: match facts.context_tokens {
            Some(tokens) => Some(clamped_pct(percent(tokens, context_window(tokens)))),
            None => None,
        },
        secs_since_append: tel.secs_since_append,
        stream: stream_of(pane),
        branch,
        pane,
        pts: highlight_target(session.surface_id, session.pts),
    }
}

/// The `i`-th branch; none where the list is shorter.
pub open spec fn branch_at(branches: Seq<Option<String>>, i: int) -> Option<Seq<char>> {
    if i < branches.len() {
        opt_text(branches[i])
    } else {
        None
    }
}

/// The rows of sessions that have telemetry, in the order of the sessions.
pub open spec fn session_rows(
    sessions: Seq<LiveSessionModel>,
    telemetry: Seq<TelemetryModel>,
    branches: Seq<Option<String>>,
    surfaces: Seq<SurfaceModel>,
) -> Seq<RowModel> {
    Seq::new(
        if sessions.len() <= telemetry.len() {
            sessions.len()
        } else {
            telemetry.len()
        },
        |i: int| session_row(sessions[i], telemetry[i], branch_at(branches, i), surfaces),
    )
}

/// The stream of a pane.
pub fn pane_stream(pane: &Option<MatchedPane>) -> (r: Option<String>)
    ensures
        opt_text(r) == stream_of(opt_pane(*pane)),
{
    match pane {
        Some(p) => Some(p.stream.clone()),
        None => None,
    }
}

/// A session's terminal, withheld where the session renders in no surface.
pub fn highlightable(surface_id: &Option<String>, pts: &Option<String>) -> (r: Option<String>)
    ensures
        opt_text(r) == highlight_target(opt_text(*surface_id), opt_text(*pts)),
{
    if surface_id.is_some() {
        pts.clone()
    } else {
        None
    }
}

/// A percentage as a byte, however absurd the usage it was computed from.
pub fn clamp_pct_u8(pct: u64) -> (r: u8)
    ensures
        r == clamped_pct(pct),
{
    if pct <= 255 {
        pct as u8
    } else {
        255
    }
}

fn name_of(ai_title: &Option<String>, native: &String) -> (r: String)
    ensures
        r@ == row_name(opt_text(*ai_title), native@),
{
    if let Some(title) = ai_title {
        if chars_of(title.as_str()).len() > 0 {
            return title.clone();
        }
    }
    native.clone()
}

fn row_of(
    session: &LiveSession,
    tel: &Telemetry,
    branch: Option<String>,
    surfaces: &[Surface],
) -> (r: SessionRow)
    ensures
        r@ == session_row(session@, tel@, opt_text(branch), views_of(surfaces@)),
{
    let nothing = TailFacts::default();
    let facts = match &tel.facts {
        Some(facts) => facts,
        None => &nothing,
    };
    let pane = match_surface(borrowed(&session.surface_id), surfaces);
    SessionRow {
        session_id: session.file.session_id.clone(),
        name: name_of(&facts.ai_title, &session.file.name),
        account: session.account.clone(),
        status: status(&session.file.status, facts.pending_question, tel.secs_since_append),
        cwd: session.file.cwd.clone(),
        context_tokens: facts.context_tokens,
        ctx_pct: match facts.context_tokens {
            Some(tokens) => Some(clamp_pct_u8(ctx_used_pct(tokens))),
            None => None,
        },
        secs_since_append: tel.secs_since_append,
        stream: pane_stream(&pane),
        branch,
        pane,
        pts: highlightable(&session.surface_id, &session.pts),
    }
}

/// Joins sessions with their telemetry and branches (parallel slices, same order) and the
/// surface list. Sorted: attention buckets first, then by name.
pub fn assemble(
    sessions: &[LiveSession],
    telemetry: &[Telemetry],
    branches: &[Option<String>],
    surfaces: &[Surface],
) -> (r: Vec<SessionRow>)
    ensures
        stable_sort_of::<SessionRow>(
            session_rows(
                views_of(sessions@),
                views_of(telemetry@),
                branches@,
                views_of(surfaces@),
            ),
            views_of(r@),
        ),
        r@.len() == if sessions@.len() <= telemetry@.len() {
            sessions@.len()
        } else {
            telemetry@.len()
        },
        forall|i: int|
            #![trigger sessions@[i]]
            0 <= i < sessions@.len() && i < telemetry@.len() ==> exists|k: int|
                #![trigger r@[k]]
                0 <= k < r@.len() && r@[k].session_id@ == sessions@[i].file.session_id@
                    && r@[k].cwd@ == sessions@[i].file.cwd@,
{
    let mut rows: Vec<SessionRow> = Vec::new();
    let mut i: usize = 0;
    while i < sessions.len() && i < telemetry.len()
        invariant
            i <= sessions.len(),
            i <= telemetry.len(),
            rows@.len() == i,
            forall|k: int|
                0 <= k < i ==> #[trigger] rows@[k]@ == session_row(
                    sessions@[k]@,
                    telemetry@[k]@,
                    branch_at(branches@, k),
                    views_of(surfaces@),
                ),
        decreases sessions.len() - i,
    {
        let branch = if i < branches.len() {
            branches[i].clone()
        } else {
            None
        };
        rows.push(row_of(&sessions[i], &telemetry[i], branch, surfaces));
        i += 1;
    }
    assert(views_of(rows@) =~= session_rows(
        views_of(sessions@),
        views_of(telemetry@),
        branches@,
        views_of(surfaces@),
    ));
    sort_rows(rows.as_mut_slice());
    proof {
        let (all, tels) = (views_of(sessions@), views_of(telemetry@));
        let board = views_of(rows@);
        each_session_has_its_row(all, tels, branches@, views_of(surfaces@), board);
        assert forall|i: int|
            #![trigger sessions@[i]]
            0 <= i < sessions@.len() && i < telemetry@.len() implies exists|k: int|
            #![trigger rows@[k]]
            0 <= k < rows@.len() && rows@[k].session_id@ == sessions@[i].file.session_id@
                && rows@[k].cwd@ == sessions@[i].file.cwd@ by {
            assert(all[i] == sessions@[i]@ && tels[i] == telemetry@[i]@);
            let k = choose|k: int|
                #![trigger board[k]]
                0 <= k < board.len() && board[k].session_id == all[i].file.session_id
                    && board[k].cwd == all[i].file.cwd;
            assert(board[k] == rows@[k]@);
        }
    }
    rows
}

/// A session that renders in no surface has no pane to jump to, no stream, and no terminal to
/// highlight, whatever the process table knew of it.
pub proof fn outside_cmux_nothing_is_a_target(
    session: LiveSessionModel,
    tel: TelemetryModel,
    branch: Option<Seq<char>>,
    surfaces: Seq<SurfaceModel>,
)
    requires
        session.surface_id is None,
    ensures
        session_row(session, tel, branch, surfaces).pane is None,
        session_row(session, tel, branch, surfaces).stream is None,
        session_row(session, tel, branch, surfaces).pts is None,
{
}

/// The topology decides a session row's pane and stream, and nothing else: without cmux the row
/// has the same status, and the same rank.
pub proof fn topology_costs_only_the_pane(
    session: LiveSessionModel,
    tel: TelemetryModel,
    branch: Option<Seq<char>>,
    a: Seq<SurfaceModel>,
    b: Seq<SurfaceModel>,
)
    ensures
        session_row(session, tel, branch, a) == (RowModel {
            pane: matched_pane(session.surface_id, a),
            stream: stream_of(matched_pane(session.surface_id, a)),
            ..session_row(session, tel, branch, b)
        }),
        SessionRow::le(
            session_row(session, tel, branch, a),
            session_row(session, tel, branch, b),
        ),
        SessionRow::le(
            session_row(session, tel, branch, b),
            session_row(session, tel, branch, a),
        ),
{
    lemma_text_le_total(
        session_row(session, tel, branch, a).name,
        session_row(session, tel, branch, b).name,
    );
}

/// The last path segment of `cwd` that is not empty; the root's name where there is none.
pub open spec fn last_segment(cwd: Seq<char>) -> Seq<char> {
    let path = without_trailing(cwd, '/');
    if path.len() == 0 {
        "/"@
    } else {
        path.skip(last_position(path, '/') + 1)
    }
}

/// Last path segment for display.
pub fn dir_name(cwd: &str) -> (r: &str)
    ensures
        r@ == last_segment(cwd@),
{
    let chars = chars_of(cwd);
    let end = len_without_trailing(chars.as_slice(), '/');
    if end == 0 {
        return "/";
    }
    let path = vstd::slice::slice_subrange(chars.as_slice(), 0, end);
    assert(path@ =~= cwd@.take(end as int));
    let start = after_last(path, '/');
    assert(cwd@.subrange(start as int, end as int) =~= path@.skip(start as int));
    cwd.substring_char(start, end)
}

/// An age in its largest whole unit: seconds, minutes, hours or days.
pub open spec fn age_text(secs: u64) -> Seq<char> {
    if secs < 60 {
        decimal(secs as nat).push('s')
    } else if secs < 3_600 {
        decimal((secs / 60) as nat).push('m')
    } else if secs < 86_400 {
        decimal((secs / 3_600) as nat).push('h')
    } else {
        decimal((secs / 86_400) as nat).push('d')
    }
}

/// Humanized age: `7s`, `4m`, `2h`, `3d`.
pub fn format_age(secs: u64) -> (r: String)
    ensures
        r@ == age_text(secs),
{
    let (count, unit) = if secs < 60 {
        (secs, 's')
    } else if secs < 3_600 {
        (secs / 60, 'm')
    } else if secs < 86_400 {
        (secs / 3_600, 'h')
    } else {
        (secs / 86_400, 'd')
    };
    let mut text = decimal_text(count);
    text.push(unit);
    text
}

/// Every session with telemetry has its row on the board, which tells the session's own id,
/// directory and account, the branch of its place in the list and the age of its transcript; its
/// name is the transcript's title where there is one, else the session's own; and its status is
/// the fold of the session's. There is no other row.
#[verifier::rlimit(40)]
pub proof fn each_session_has_its_row(
    sessions: Seq<LiveSessionModel>,
    telemetry: Seq<TelemetryModel>,
    branches: Seq<Option<String>>,
    surfaces: Seq<SurfaceModel>,
    board: Seq<RowModel>,
)
    requires
        stable_sort_of::<SessionRow>(session_rows(sessions, telemetry, branches, surfaces), board),
    ensures
        board.len() <= sessions.len(),
        board.len() <= telemetry.len(),
        board.len() == sessions.len() || board.len() == telemetry.len(),
        forall|i: int|
            #![trigger sessions[i], telemetry[i]]
            0 <= i < sessions.len() && i < telemetry.len() ==> exists|k: int|
                #![trigger board[k]]
                0 <= k < board.len() && board[k].session_id == sessions[i].file.session_id
                    && board[k].cwd == sessions[i].file.cwd && board[k].account
                    == sessions[i].account && board[k].secs_since_append
                    == telemetry[i].secs_since_append && (match telemetry[i].facts {
                    Some(f) => match f.ai_title {
                        Some(title) => if title.len() > 0 {
                            board[k].name == title
                        } else {
                            board[k].name == sessions[i].file.name
                        },
                        None => board[k].name == sessions[i].file.name,
                    },
                    None => board[k].name == sessions[i].file.name,
                }) && board[k].status == folded(
                    sessions[i].file.status,
                    telemetry[i].facts is Some && telemetry[i].facts->0.pending_question,
                    telemetry[i].secs_since_append,
                ) && (if i < branches.len() {
                    match branches[i] {
                        Some(b) => board[k].branch == Some(b@),
                        None => board[k].branch is None,
                    }
                } else {
                    board[k].branch is None
                }),
        forall|k: int|
            #![trigger board[k]]
            0 <= k < board.len() ==> exists|i: int|
                #![trigger sessions[i]]
                0 <= i < sessions.len() && i < telemetry.len() && board[k].session_id
                    == sessions[i].file.session_id && board[k].cwd == sessions[i].file.cwd,
{
    let rows = session_rows(sessions, telemetry, branches, surfaces);
    a_sorted_list_holds_the_same::<SessionRow>(rows, board);
    assert forall|i: int|
        #![trigger sessions[i], telemetry[i]]
        0 <= i < sessions.len() && i < telemetry.len() implies exists|k: int|
        #![trigger board[k]]
        0 <= k < board.len() && board[k].session_id == sessions[i].file.session_id && board[k].cwd
            == sessions[i].file.cwd && board[k].account == sessions[i].account
            && board[k].secs_since_append == telemetry[i].secs_since_append && (match
        telemetry[i].facts {
            Some(f) => match f.ai_title {
                Some(title) => if title.len() > 0 {
                    board[k].name == title
                } else {
                    board[k].name == sessions[i].file.name
                },
                None => board[k].name == sessions[i].file.name,
            },
            None => board[k].name == sessions[i].file.name,
        }) && board[k].status == folded(
            sessions[i].file.status,
            telemetry[i].facts is Some && telemetry[i].facts->0.pending_question,
            telemetry[i].secs_since_append,
        ) && (if i < branches.len() {
            match branches[i] {
                Some(b) => board[k].branch == Some(b@),
                None => board[k].branch is None,
            }
        } else {
            board[k].branch is None
        }) by {
        assert(board.contains(rows[i]));
        let k = choose|k: int| 0 <= k < board.len() && board[k] == rows[i];
        assert(board[k] == rows[i]);
    }
    assert forall|k: int|
        #![trigger board[k]]
        0 <= k < board.len() implies exists|i: int|
        #![trigger sessions[i]]
        0 <= i < sessions.len() && i < telemetry.len() && board[k].session_id
            == sessions[i].file.session_id && board[k].cwd == sessions[i].file.cwd by {
        assert(rows.contains(board[k]));
        let i = choose|i: int| 0 <= i < rows.len() && rows[i] == board[k];
        assert(sessions[i].file.cwd == rows[i].cwd);
    }
}

/// A row tells the context that the transcript's last message used: the tokens, and their share
/// of the window in percent, clamped to a byte; without telemetry it tells neither.
pub proof fn a_row_tells_the_context_used(
    session: LiveSessionModel,
    tel: TelemetryModel,
    branch: Option<Seq<char>>,
    surfaces: Seq<SurfaceModel>,
)
    ensures
        ({
            let row = session_row(session, tel, branch, surfaces);
            match tel.facts {
                Some(f) => {
                    &&& row.context_tokens == f.context_tokens
                    &&& row.ctx_pct == match f.context_tokens {
                        Some(n) => Some(clamped_pct(percent(n, context_window(n)))),
                        None => None::<u8>,
                    }
                },
                None => row.context_tokens is None && row.ctx_pct is None,
            }
        }),
{
}

/// A session is matched to the first surface that has the id it names: the jump goes to that id,
/// at that surface's window and tab, and the stream is that surface's workspace. A session that
/// names no surface, or one that is not there, is matched to nothing.
pub proof fn a_match_tells_its_surface(id: Seq<char>, surfaces: Seq<SurfaceModel>)
    ensures
        matched_pane(None, surfaces) is None,
        match matched_pane(Some(id), surfaces) {
            Some(pane) => pane.surface_id == id && exists|i: int|
                #![trigger surfaces[i]]
                0 <= i < surfaces.len() && surfaces[i].id == id && pane.window_index
                    == surfaces[i].window_index && pane.tab_index == surfaces[i].tab_index
                    && pane.stream == surfaces[i].name && forall|j: int|
                    0 <= j < i ==> (#[trigger] surfaces[j]).id != id,
            None => forall|i: int| 0 <= i < surfaces.len() ==> (#[trigger] surfaces[i]).id != id,
        },
    decreases surfaces.len(),
{
    if surfaces.len() > 0 {
        if surfaces[0].id == id {
            assert(forall|j: int| 0 <= j < 0 ==> (#[trigger] surfaces[j]).id != id);
        } else {
            let rest = surfaces.drop_first();
            a_match_tells_its_surface(id, rest);
            match matched_pane(Some(id), rest) {
                Some(pane) => {
                    let k = choose|k: int|
                        #![trigger rest[k]]
                        0 <= k < rest.len() && rest[k].id == id && pane.window_index
                            == rest[k].window_index && pane.tab_index == rest[k].tab_index
                            && pane.stream == rest[k].name && forall|j: int|
                            0 <= j < k ==> (#[trigger] rest[j]).id != id;
                    assert(surfaces[k + 1] == rest[k]);
                    assert forall|j: int| 0 <= j < k + 1 implies (#[trigger] surfaces[j]).id
                        != id by {
                        if j > 0 {
                            assert(rest[j - 1] == surfaces[j]);
                        }
                    }
                },
                None => {
                    assert forall|i: int| 0 <= i < surfaces.len() implies (
                    #[trigger] surfaces[i]).id != id by {
                        if i > 0 {
                            assert(rest[i - 1] == surfaces[i]);
                        }
                    }
                },
            }
        }
    }
}

/// A row's pane is the one its session is matched to, its stream is that pane's workspace, and it
/// carries the session's terminal exactly where the session names a surface.
pub proof fn a_row_jumps_to_its_surface(
    session: LiveSessionModel,
    tel: TelemetryModel,
    branch: Option<Seq<char>>,
    surfaces: Seq<SurfaceModel>,
)
    ensures
        ({
            let row = session_row(session, tel, branch, surfaces);
            &&& row.pane == matched_pane(session.surface_id, surfaces)
            &&& row.pane is None ==> row.stream is None
            &&& row.pane is Some ==> row.stream == Some(row.pane->0.stream)
            &&& session.surface_id is Some ==> row.pts == session.pts
            &&& session.surface_id is None ==> row.pts is None
        }),
{
}

/// Rows rank by the attention their status asks for, and only among rows of one status by name.
pub proof fn rows_rank_by_attention_and_name(a: RowModel, b: RowModel)
    ensures
        bucket(a.status) < bucket(b.status) ==> SessionRow::le(a, b) && !SessionRow::le(b, a),
        bucket(a.status) == bucket(b.status) ==> (SessionRow::le(a, b) <==> text_le(
            a.name,
            b.name,
        )),
{
}

/// The directory shown is the last segment of the path, however many slashes follow it; of a path
/// of slashes alone it is the root.
pub proof fn the_last_segment_is_shown(parent: Seq<char>, segment: Seq<char>, slashes: Seq<char>)
    requires
        segment.len() > 0,
        !occurs(segment, '/'),
        forall|i: int| 0 <= i < slashes.len() ==> #[trigger] slashes[i] == '/',
    ensures
        last_segment(parent + seq!['/'] + segment + slashes) == segment,
        last_segment(segment + slashes) == segment,
        last_segment(slashes) == seq!['/'],
{
    let none = Seq::<char>::empty();
    assert(segment.last() == segment[segment.len() - 1]);
    let path = parent + seq!['/'] + segment;
    assert(path.last() == segment.last());
    only_the_trailing_are_cut(path, '/', slashes);
    only_the_trailing_are_cut(segment, '/', slashes);
    only_the_trailing_are_cut(none, '/', slashes);
    assert(none + slashes =~= slashes);
    nothing_follows_the_last(parent, '/', segment);
    assert(path.skip(parent.len() as int + 1) =~= segment);
    assert(segment.skip(0) =~= segment);
    reveal_strlit("/");
    assert("/"@ =~= seq!['/']);
}

/// An age is shown as the number of whole units in it, in the largest unit that it holds one of:
/// days, hours, minutes; seconds where it holds none.
pub proof fn an_age_is_told_in_whole_units(days: u64, hours: u64, minutes: u64, seconds: u64)
    requires
        hours < 24,
        minutes < 60,
        seconds < 60,
        days * 86_400 + hours * 3_600 + minutes * 60 + seconds <= u64::MAX,
    ensures
        age_text((days * 86_400 + hours * 3_600 + minutes * 60 + seconds) as u64) == if days > 0 {
            decimal(days as nat) + seq!['d']
        } else if hours > 0 {
            decimal(hours as nat) + seq!['h']
        } else if minutes > 0 {
            decimal(minutes as nat) + seq!['m']
        } else {
            decimal(seconds as nat) + seq!['s']
        },
{
    let secs = (days * 86_400 + hours * 3_600 + minutes * 60 + seconds) as u64;
    if days > 0 {
        assert(secs / 86_400 == days);
        assert(decimal(days as nat).push('d') =~= decimal(days as nat) + seq!['d']);
    } else if hours > 0 {
        assert(secs / 3_600 == hours);
        assert(decimal(hours as nat).push('h') =~= decimal(hours as nat) + seq!['h']);
    } else if minutes > 0 {
        assert(secs / 60 == minutes);
        assert(decimal(minutes as nat).push('m') =~= decimal(minutes as nat) + seq!['m']);
    } else {
        assert(decimal(seconds as nat).push('s') =~= decimal(seconds as nat) + seq!['s']);
    }
}

/// A model of a row, or of its pane, holds each field of it.
pub proof fn board_models_hold_every_field(row: SessionRow, pane: MatchedPane)
    ensures
        pane@.surface_id == pane.surface_id@,
        pane@.window_index == pane.window_index,
        pane@.tab_index == pane.tab_index,
        pane@.stream == pane.stream@,
        opt_pane(Some(pane)) == Some(pane@),
        opt_pane(None) is None,
        row@.session_id == row.session_id@,
        row@.name == row.name@,
        row@.status == row.status,
        row@.cwd == row.cwd@,
        row@.context_tokens == row.context_tokens,
        row@.ctx_pct == row.ctx_pct,
        row@.secs_since_append == row.secs_since_append,
        match (row.account, row@.account) {
            (Some(s), Some(t)) => s@ == t,
            (None, None) => true,
            _ => false,
        },
        match (row.stream, row@.stream) {
            (Some(s), Some(t)) => s@ == t,
            (None, None) => true,
            _ => false,
        },
        match (row.branch, row@.branch) {
            (Some(s), Some(t)) => s@ == t,
            (None, None) => true,
            _ => false,
        },
        match (row.pane, row@.pane) {
            (Some(s), Some(t)) => s@ == t,
            (None, None) => true,
            _ => false,
        },
        match (row.pts, row@.pts) {
            (Some(s), Some(t)) => s@ == t,
            (None, None) => true,
            _ => false,
        },
{
}

} // verus!
