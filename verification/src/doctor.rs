//! The doctor: a read-only drift report. Are the undocumented sources still readable?
//!
//! A broken sensor must never read as a clean, empty fleet: a failed process table and an
//! unreadable sessions directory each name themselves.

use vstd::prelude::*;
use vstd::string::*;
use crate::board::{a_match_tells_its_surface, borrowed, match_surface, matched_pane};
use crate::cmux::{Surface, SurfaceModel};
use crate::discovery::{
    no_stats, LiveSession, LiveSessionModel, NativeStatus, NativeStatusModel, ScanStats,
};
use crate::error::{error_text, AppResult};
use crate::number::{decimal, decimal_text, is_digit, lemma_decimal_digits};
use crate::order::views_of;
use crate::telemetry::{Telemetry, TelemetryModel};
use crate::text::{join, opt_text, starts_with, texts};
use crate::textset::TextSet;

verus! {

/// Everything the report renders.
#[derive(Debug)]
pub struct DoctorFacts {
    /// Discovery tallies.
    pub scan: ScanStats,
    /// Unknown native status strings seen: a drift signal.
    pub unknown_statuses: TextSet,
    /// Versions present in live session files.
    pub versions: TextSet,
    /// Per live session: name, transcript found, account attributed, pane matched.
    pub sessions: Vec<(String, bool, bool, bool)>,
    /// Sessions that carry an exact surface identity.
    pub exact_panes: usize,
    /// How many surfaces there are, or how the cmux call failed.
    pub cmux: Result<usize, String>,
    /// How the process table call failed, if it did: liveness is then unknowable.
    pub procs_error: Option<String>,
}

/// What `DoctorFacts` stand for.
pub struct DoctorModel {
    pub scan: ScanStats,
    pub unknown_statuses: Seq<Seq<char>>,
    pub versions: Seq<Seq<char>>,
    pub sessions: Seq<(Seq<char>, bool, bool, bool)>,
    pub exact_panes: usize,
    pub cmux: Result<usize, Seq<char>>,
    pub procs_error: Option<Seq<char>>,
}

/// The model of a result with a text for its error.
pub open spec fn result_text(r: Result<usize, String>) -> Result<usize, Seq<char>> {
    match r {
        Ok(n) => Ok(n),
        Err(e) => Err(e@),
    }
}

/// The models of per-session findings.
pub open spec fn findings(
    sessions: Seq<(String, bool, bool, bool)>,
) -> Seq<(Seq<char>, bool, bool, bool)> {
    Seq::new(
        sessions.len(),
        |i: int| (sessions[i].0@, sessions[i].1, sessions[i].2, sessions[i].3),
    )
}

impl View for DoctorFacts {
    type V = DoctorModel;

    open spec fn view(&self) -> DoctorModel {
        DoctorModel {
            scan: self.scan,
            unknown_statuses: self.unknown_statuses@,
            versions: self.versions@,
            sessions: findings(self.sessions@),
            exact_panes: self.exact_panes,
            cmux: result_text(self.cmux),
            procs_error: opt_text(self.procs_error),
        }
    }
}

impl Default for DoctorFacts {
    fn default() -> (r: Self)
        ensures
            r@ == (DoctorModel {
                scan: no_stats(),
                unknown_statuses: seq![],
                versions: seq![],
                sessions: seq![],
                exact_panes: 0,
                cmux: Err("not checked"@),
                procs_error: None,
            }),
            r.unknown_statuses.wf(),
            r.versions.wf(),
    {
        let r = DoctorFacts {
            scan: ScanStats::default(),
            unknown_statuses: TextSet::default(),
            versions: TextSet::default(),
            sessions: Vec::new(),
            exact_panes: 0,
            cmux: Err("not checked".to_owned()),
            procs_error: None,
        };
        assert(r@.sessions =~= seq![]);
        r
    }
}

/// What formatting a text with `{:?}` gives: the text in quotes, with escapes where it needs
/// them.
pub uninterp spec fn debug_text(s: Seq<char>) -> Seq<char>;

/// Calls the `Debug` formatting of `str`: the result depends on the text alone.
#[verifier::external_body]
fn quoted(s: &str) -> (r: String)
    ensures
        r@ == debug_text(s@),
{
    format!("{:?}", s)
}

/// Each text as `{:?}` shows it.
pub open spec fn all_quoted(items: Seq<Seq<char>>) -> Seq<Seq<char>> {
    Seq::new(items.len(), |i: int| debug_text(items[i]))
}

/// The line on a failed process table.
pub open spec fn procs_line(procs_error: Option<Seq<char>>) -> Seq<char> {
    match procs_error {
        Some(e) => "  ⚠ process table unavailable: "@ + e
            + " — every session reads as dead, this is NOT an empty fleet\n"@,
        None => seq![],
    }
}

/// The line with the tallies.
pub open spec fn counts_line(scan: ScanStats) -> Seq<char> {
    "session files: "@ + decimal(scan.total_files as nat) + " total · "@ + decimal(
        scan.live as nat,
    ) + " live · "@ + decimal(scan.stale_dead as nat) + " stale-dead · "@ + decimal(
        scan.parse_failed as nat,
    ) + " parse-failed\n"@
}

/// The line on an unreadable sessions directory.
pub open spec fn dir_line(scan: ScanStats) -> Seq<char> {
    if scan.dir_unreadable {
        "  ⚠ sessions dir unreadable — scan failed, this is NOT an empty fleet\n"@
    } else {
        seq![]
    }
}

/// The line on files that did not parse.
pub open spec fn parse_line(scan: ScanStats) -> Seq<char> {
    if scan.parse_failed > 0 {
        "  ⚠ parse failures — sessions/<pid>.json format may have drifted (A1)\n"@
    } else {
        seq![]
    }
}

/// The line on native statuses, from the quoted unknown ones.
pub open spec fn statuses_line(unknown: Seq<Seq<char>>) -> Seq<char> {
    if unknown.len() == 0 {
        "native statuses: all known (busy/idle/shell/waiting)\n"@
    } else {
        "  ⚠ unknown native statuses: {"@ + join(unknown, ", "@)
            + "} — fold shows these as Unknown\n"@
    }
}

/// The line with the versions.
pub open spec fn versions_line(versions: Seq<Seq<char>>) -> Seq<char> {
    "cc versions in live files: "@ + (if versions.len() == 0 {
        "none"@
    } else {
        join(versions, ", "@)
    }) + "\n"@
}

/// The line on how many sessions know their surface.
pub open spec fn identity_line(exact_panes: usize, sessions: nat) -> Seq<char> {
    "pane identity: "@ + decimal(exact_panes as nat) + " of "@ + decimal(sessions)
        + " sessions exact (CMUX_SURFACE_ID)\n"@
}

/// The line on cmux.
pub open spec fn cmux_line(cmux: Result<usize, Seq<char>>) -> Seq<char> {
    match cmux {
        Ok(count) => "cmux: "@ + decimal(count as nat) + " terminals\n"@,
        Err(e) => "  ⚠ cmux unreachable: "@ + e + " — jump lane degraded (A2)\n"@,
    }
}

/// The line on a fleet that runs outside cmux altogether.
pub open spec fn outside_line(facts: DoctorModel) -> Seq<char> {
    if facts.exact_panes == 0 && facts.sessions.len() > 0 && facts.cmux is Ok {
        "  ⚠ no session carries CMUX_SURFACE_ID — sessions started outside cmux cannot be jumped to\n"@
    } else {
        seq![]
    }
}

/// The heading of the session list.
pub open spec fn sessions_heading(sessions: nat) -> Seq<char> {
    "\nlive sessions ("@ + decimal(sessions) + "):\n"@
}

/// How a finding is marked.
pub open spec fn mark_text(found: bool) -> Seq<char> {
    if found {
        "✓"@
    } else {
        "✗"@
    }
}

/// The line of one session.
pub open spec fn session_line(session: (Seq<char>, bool, bool, bool)) -> Seq<char> {
    "  "@ + mark_text(session.1) + " transcript · "@ + mark_text(session.2) + " account · "@
        + mark_text(session.3) + " pane — "@ + session.0 + "\n"@
}

/// The lines of all sessions.
pub open spec fn session_lines(sessions: Seq<(Seq<char>, bool, bool, bool)>) -> Seq<char>
    decreases sessions.len(),
{
    if sessions.len() == 0 {
        seq![]
    } else {
        session_lines(sessions.drop_last()) + session_line(sessions.last())
    }
}

/// The first line of the report, and the empty one after it.
pub open spec fn title() -> Seq<char> {
    "fleet doctor — read-only drift report\n\n"@
}

/// The report, given the unknown statuses as they are quoted.
pub open spec fn report_with(facts: DoctorModel, unknown: Seq<Seq<char>>) -> Seq<char> {
    title() + procs_line(facts.procs_error) + counts_line(facts.scan) + dir_line(facts.scan)
        + parse_line(facts.scan) + statuses_line(unknown) + versions_line(
        facts.versions,
    ) + identity_line(facts.exact_panes, facts.sessions.len()) + cmux_line(facts.cmux)
        + outside_line(facts) + sessions_heading(facts.sessions.len()) + session_lines(
        facts.sessions,
    )
}

/// The report.
pub open spec fn report_text(facts: DoctorModel) -> Seq<char> {
    report_with(facts, all_quoted(facts.unknown_statuses))
}

fn append_number(out: &mut String, n: usize)
    ensures
        final(out)@ == old(out)@ + decimal(n as nat),
{
    out.append(decimal_text(n as u64).as_str());
}

fn write_procs_line(out: &mut String, procs_error: &Option<String>)
    ensures
        final(out)@ == old(out)@ + procs_line(opt_text(*procs_error)),
{
    let ghost before = out@;
    if let Some(e) = procs_error {
        out.append("  ⚠ process table unavailable: ");
        out.append(e.as_str());
        out.append(" — every session reads as dead, this is NOT an empty fleet\n");
    }
    assert(out@ =~= before + procs_line(opt_text(*procs_error)));
}

fn write_counts_line(out: &mut String, scan: &ScanStats)
    ensures
        final(out)@ == old(out)@ + counts_line(*scan),
{
    let ghost before = out@;
    out.append("session files: ");
    append_number(out, scan.total_files);
    out.append(" total · ");
    append_number(out, scan.live);
    out.append(" live · ");
    append_number(out, scan.stale_dead);
    out.append(" stale-dead · ");
    append_number(out, scan.parse_failed);
    out.append(" parse-failed\n");
    assert(out@ =~= before + counts_line(*scan));
}

fn write_scan_warnings(out: &mut String, scan: &ScanStats)
    ensures
        final(out)@ == old(out)@ + dir_line(*scan) + parse_line(*scan),
{
    let ghost before = out@;
    if scan.dir_unreadable {
        out.append("  ⚠ sessions dir unreadable — scan failed, this is NOT an empty fleet\n");
    }
    if scan.parse_failed > 0 {
        out.append("  ⚠ parse failures — sessions/<pid>.json format may have drifted (A1)\n");
    }
    assert(out@ =~= before + dir_line(*scan) + parse_line(*scan));
}

/// Appends the texts with commas between them.
fn write_list(out: &mut String, items: &Vec<String>)
    ensures
        final(out)@ == old(out)@ + join(texts(items@), ", "@),
{
    let ghost before = out@;
    let ghost all = texts(items@);
    let mut i: usize = 0;
    assert(out@ =~= before + join(all.take(0), ", "@));
    while i < items.len()
        invariant
            i <= items.len(),
            all == texts(items@),
            out@ == before + join(all.take(i as int), ", "@),
        decreases items.len() - i,
    {
        assert(all.take(i + 1).drop_last() =~= all.take(i as int));
        assert(all.take(i + 1).last() == all[i as int]);
        if i > 0 {
            out.append(", ");
        }
        out.append(items[i].as_str());
        assert(out@ =~= before + join(all.take(i + 1), ", "@));
        i += 1;
    }
    assert(all.take(i as int) =~= all);
}

fn write_statuses_line(out: &mut String, unknown: &Vec<String>)
    ensures
        final(out)@ == old(out)@ + statuses_line(texts(unknown@)),
{
    let ghost before = out@;
    if unknown.len() == 0 {
        out.append("native statuses: all known (busy/idle/shell/waiting)\n");
    } else {
        out.append("  ⚠ unknown native statuses: {");
        write_list(out, unknown);
        out.append("} — fold shows these as Unknown\n");
    }
    assert(out@ =~= before + statuses_line(texts(unknown@)));
}

fn write_versions_line(out: &mut String, versions: &TextSet)
    ensures
        final(out)@ == old(out)@ + versions_line(versions@),
{
    let ghost before = out@;
    let items = versions.items();
    out.append("cc versions in live files: ");
    if items.len() == 0 {
        out.append("none");
    } else {
        write_list(out, items);
    }
    out.append("\n");
    assert(out@ =~= before + versions_line(versions@));
}

fn write_identity_line(out: &mut String, exact_panes: usize, sessions: usize)
    ensures
        final(out)@ == old(out)@ + identity_line(exact_panes, sessions as nat),
{
    let ghost before = out@;
    out.append("pane identity: ");
    append_number(out, exact_panes);
    out.append(" of ");
    append_number(out, sessions);
    out.append(" sessions exact (CMUX_SURFACE_ID)\n");
    assert(out@ =~= before + identity_line(exact_panes, sessions as nat));
}

fn write_cmux_line(out: &mut String, cmux: &Result<usize, String>)
    ensures
        final(out)@ == old(out)@ + cmux_line(result_text(*cmux)),
{
    let ghost before = out@;
    match cmux {
        Ok(count) => {
            out.append("cmux: ");
            append_number(out, *count);
            out.append(" terminals\n");
        },
        Err(e) => {
            out.append("  ⚠ cmux unreachable: ");
            out.append(e.as_str());
            out.append(" — jump lane degraded (A2)\n");
        },
    }
    assert(out@ =~= before + cmux_line(result_text(*cmux)));
}

fn mark(found: bool) -> (r: &'static str)
    ensures
        r@ == mark_text(found),
{
    if found {
        "✓"
    } else {
        "✗"
    }
}

fn write_session_line(out: &mut String, session: &(String, bool, bool, bool))
    ensures
        final(out)@ == old(out)@ + session_line(
            (session.0@, session.1, session.2, session.3),
        ),
{
    let ghost before = out@;
    out.append("  ");
    out.append(mark(session.1));
    out.append(" transcript · ");
    out.append(mark(session.2));
    out.append(" account · ");
    out.append(mark(session.3));
    out.append(" pane — ");
    out.append(session.0.as_str());
    out.append("\n");
    assert(out@ =~= before + session_line((session.0@, session.1, session.2, session.3)));
}

fn write_sessions(out: &mut String, sessions: &Vec<(String, bool, bool, bool)>)
    ensures
        final(out)@ == old(out)@ + sessions_heading(sessions@.len()) + session_lines(
            findings(sessions@),
        ),
{
    let ghost start = out@;
    out.append("\nlive sessions (");
    append_number(out, sessions.len());
    out.append("):\n");
    assert(out@ =~= start + sessions_heading(sessions@.len()));
    let ghost before = out@;
    let ghost all = findings(sessions@);
    let mut i: usize = 0;
    assert(out@ =~= before + session_lines(all.take(0)));
    while i < sessions.len()
        invariant
            i <= sessions.len(),
            all == findings(sessions@),
            out@ == before + session_lines(all.take(i as int)),
        decreases sessions.len() - i,
    {
        assert(all.take(i + 1).drop_last() =~= all.take(i as int));
        assert(all.take(i + 1).last() == all[i as int]);
        write_session_line(out, &sessions[i]);
        assert(out@ =~= before + session_lines(all.take(i + 1)));
        i += 1;
    }
    assert(all.take(i as int) =~= all);
}

/// Renders the report, given the unknown statuses as they are quoted.
pub fn render_report_with(facts: &DoctorFacts, unknown: &Vec<String>) -> (r: String)
    ensures
        r@ == report_with(facts@, texts(unknown@)),
{
    let mut out = "fleet doctor — read-only drift report\n\n".to_owned();
    write_procs_line(&mut out, &facts.procs_error);
    write_counts_line(&mut out, &facts.scan);
    write_scan_warnings(&mut out, &facts.scan);
    write_statuses_line(&mut out, unknown);
    write_versions_line(&mut out, &facts.versions);
    write_identity_line(&mut out, facts.exact_panes, facts.sessions.len());
    write_cmux_line(&mut out, &facts.cmux);
    let ghost before = out@;
    if facts.exact_panes == 0 && facts.sessions.len() > 0 && facts.cmux.is_ok() {
        out.append(
            "  ⚠ no session carries CMUX_SURFACE_ID — sessions started outside cmux cannot be jumped to\n",
        );
    }
    assert(out@ =~= before + outside_line(facts@));
    write_sessions(&mut out, &facts.sessions);
    out
}

/// Renders the report.
pub fn render_report(facts: &DoctorFacts) -> (r: String)
    ensures
        r@ == report_text(facts@),
{
    let items = facts.unknown_statuses.items();
    let mut unknown: Vec<String> = Vec::new();
    let mut i: usize = 0;
    while i < items.len()
        invariant
            i <= items.len(),
            unknown@.len() == i,
            forall|k: int| 0 <= k < i ==> #[trigger] unknown@[k]@ == debug_text(items@[k]@),
        decreases items.len() - i,
    {
        unknown.push(quoted(items[i].as_str()));
        i += 1;
    }
    assert(texts(items@) == facts@.unknown_statuses);
    assert(texts(unknown@) =~= all_quoted(texts(items@)));
    render_report_with(facts, &unknown)
}

/// What the doctor says where the scan itself crashed: not a clean, empty fleet.
pub const SCAN_TASK_FAILED: &'static str = "fleet doctor: scan task failed\n";

/// Whether the tallies are a reading of the fleet at all: the directory could be read, and
/// liveness could be told. The doctor exits non-zero where they are not.
pub fn scan_ok(scan: &ScanStats) -> (r: bool)
    ensures
        r == (!scan.dir_unreadable && !scan.procs_unavailable),
{
    !scan.dir_unreadable && !scan.procs_unavailable
}

/// Whether the `i`-th session's transcript was found.
pub open spec fn transcript_found(telemetry: Seq<TelemetryModel>, i: int) -> bool {
    i < telemetry.len() && telemetry[i].facts is Some
}

/// What the doctor finds of each session.
pub open spec fn findings_of(
    sessions: Seq<LiveSessionModel>,
    telemetry: Seq<TelemetryModel>,
    surfaces: Seq<SurfaceModel>,
) -> Seq<(Seq<char>, bool, bool, bool)> {
    Seq::new(
        sessions.len(),
        |i: int|
            (
                sessions[i].file.name,
                transcript_found(telemetry, i),
                sessions[i].account is Some,
                matched_pane(sessions[i].surface_id, surfaces) is Some,
            ),
    )
}

/// How many sessions know their surface.
pub open spec fn exact_count(sessions: Seq<LiveSessionModel>) -> nat
    decreases sessions.len(),
{
    if sessions.len() == 0 {
        0
    } else {
        exact_count(sessions.drop_last()) + if sessions.last().surface_id is Some {
            1nat
        } else {
            0nat
        }
    }
}

/// Whether a session has a native status of this name that is not known.
pub open spec fn seen_unknown(sessions: Seq<LiveSessionModel>, status: Seq<char>) -> bool {
    exists|i: int|
        0 <= i < sessions.len() && (#[trigger] sessions[i]).file.status
            == NativeStatusModel::Other(status)
}

/// Whether a session's file was written by this version.
pub open spec fn seen_version(sessions: Seq<LiveSessionModel>, version: Seq<char>) -> bool {
    exists|i: int|
        0 <= i < sessions.len() && (#[trigger] sessions[i]).file.version == Some(version)
}

/// The surfaces a topology fetch came to: none where it failed.
pub open spec fn surfaces_or_none(result: AppResult<Vec<Surface>>) -> Seq<SurfaceModel> {
    match result {
        Ok(surfaces) => views_of(surfaces@),
        Err(_) => seq![],
    }
}

/// Gathers the facts from what was sampled: the scan's tallies and sessions, their telemetry
/// (parallel to the sessions), the topology, and how the process table call failed, if it did.
pub fn gather(
    scan: ScanStats,
    sessions: &[LiveSession],
    telemetry: &[Telemetry],
    topology: AppResult<Vec<Surface>>,
    procs_error: Option<String>,
) -> (r: DoctorFacts)
    ensures
        r@.scan == (ScanStats { procs_unavailable: procs_error is Some, ..scan }),
        r@.sessions == findings_of(
            views_of(sessions@),
            views_of(telemetry@),
            surfaces_or_none(topology),
        ),
        r@.exact_panes == exact_count(views_of(sessions@)),
        r@.cmux == match topology {
            Ok(surfaces) => Ok(surfaces@.len() as usize),
            Err(e) => Err(error_text(e)),
        },
        r@.procs_error == opt_text(procs_error),
        r.unknown_statuses.wf(),
        r.versions.wf(),
        forall|t: Seq<char>| #[trigger]
            r@.unknown_statuses.contains(t) <==> seen_unknown(views_of(sessions@), t),
        forall|t: Seq<char>| #[trigger]
            r@.versions.contains(t) <==> seen_version(views_of(sessions@), t),
{
    let ghost all = views_of(sessions@);
    let ghost there = surfaces_or_none(topology);
    let (cmux, surfaces) = match topology {
        Ok(surfaces) => (Ok(surfaces.len()), surfaces),
        Err(e) => (Err(e.message()), Vec::new()),
    };
    assert(views_of(surfaces@) =~= there);
    let mut unknown_statuses = TextSet::default();
    let mut versions = TextSet::default();
    let mut found: Vec<(String, bool, bool, bool)> = Vec::new();
    let mut exact_panes: usize = 0;
    let mut i: usize = 0;
    assert(all.take(0) =~= seq![]);
    while i < sessions.len()
        invariant
            i <= sessions.len(),
            all == views_of(sessions@),
            there == views_of(surfaces@),
            exact_panes <= i,
            exact_panes == exact_count(all.take(i as int)),
            unknown_statuses.wf(),
            versions.wf(),
            forall|t: Seq<char>| #[trigger]
                unknown_statuses@.contains(t) <==> seen_unknown(all.take(i as int), t),
            forall|t: Seq<char>| #[trigger]
                versions@.contains(t) <==> seen_version(all.take(i as int), t),
            found@.len() == i,
            forall|k: int|
                0 <= k < i ==> #[trigger] findings(found@)[k] == findings_of(
                    all,
                    views_of(telemetry@),
                    there,
                )[k],
        decreases sessions.len() - i,
    {
        let s = &sessions[i];
        let ghost seen = all.take(i as int);
        let ghost next = all.take(i + 1);
        let ghost unknown_before = unknown_statuses@;
        let ghost versions_before = versions@;
        assert(next.drop_last() =~= seen);
        assert(next.last() == s@);
        if let NativeStatus::Other(unknown) = &s.file.status {
            unknown_statuses.insert(unknown.clone());
        }
        if let Some(version) = &s.file.version {
            versions.insert(version.clone());
        }
        proof {
            lemma_seen_one_more(all, i as int);
        }
        let transcript = i < telemetry.len() && telemetry[i].facts.is_some();
        if s.surface_id.is_some() {
            exact_panes += 1;
        }
        let pane = match_surface(borrowed(&s.surface_id), surfaces.as_slice());
        let ghost before = findings(found@);
        found.push((s.file.name.clone(), transcript, s.account.is_some(), pane.is_some()));
        assert forall|k: int| 0 <= k < i + 1 implies #[trigger] findings(found@)[k] == findings_of(
            all,
            views_of(telemetry@),
            there,
        )[k] by {
            if k < i {
                assert(findings(found@)[k] == before[k]);
            }
        }
        i += 1;
    }
    assert(all.take(i as int) =~= all);
    let mut stats = scan;
    stats.procs_unavailable = procs_error.is_some();
    let facts = DoctorFacts {
        scan: stats,
        unknown_statuses,
        versions,
        sessions: found,
        exact_panes,
        cmux,
        procs_error,
    };
    assert(facts@.sessions =~= findings_of(all, views_of(telemetry@), there));
    facts
}

/// What one more session adds to the statuses and versions seen.
proof fn lemma_seen_one_more(sessions: Seq<LiveSessionModel>, i: int)
    requires
        0 <= i < sessions.len(),
    ensures
        forall|t: Seq<char>| #[trigger]
            seen_unknown(sessions.take(i + 1), t) <==> seen_unknown(sessions.take(i), t)
                || sessions[i].file.status == NativeStatusModel::Other(t),
        forall|t: Seq<char>| #[trigger]
            seen_version(sessions.take(i + 1), t) <==> seen_version(sessions.take(i), t)
                || sessions[i].file.version == Some(t),
{
    let (a, b) = (sessions.take(i), sessions.take(i + 1));
    assert(b[i] == sessions[i]);
    assert forall|t: Seq<char>| #[trigger] seen_unknown(b, t) <==> seen_unknown(a, t)
        || sessions[i].file.status == NativeStatusModel::Other(t) by {
        if seen_unknown(a, t) {
            let k = choose|k: int|
                0 <= k < a.len() && (#[trigger] a[k]).file.status == NativeStatusModel::Other(t);
            assert(b[k] == a[k]);
        }
        if seen_unknown(b, t) {
            let k = choose|k: int|
                0 <= k < b.len() && (#[trigger] b[k]).file.status == NativeStatusModel::Other(t);
            assert(k < i ==> a[k] == b[k]);
        }
    }
    assert forall|t: Seq<char>| #[trigger] seen_version(b, t) <==> seen_version(a, t)
        || sessions[i].file.version == Some(t) by {
        if seen_version(a, t) {
            let k = choose|k: int|
                0 <= k < a.len() && (#[trigger] a[k]).file.version == Some(t);
            assert(b[k] == a[k]);
        }
        if seen_version(b, t) {
            let k = choose|k: int|
                0 <= k < b.len() && (#[trigger] b[k]).file.version == Some(t);
            assert(k < i ==> a[k] == b[k]);
        }
    }
}

/// Whether `needle` occurs in `s`.
pub open spec fn mentions(s: Seq<char>, needle: Seq<char>) -> bool {
    exists|i: int| 0 <= i && i + needle.len() <= s.len() && #[trigger] s.subrange(
        i,
        i + needle.len(),
    ) == needle
}

/// What a part mentions, the whole mentions.
proof fn lemma_mentions_within(a: Seq<char>, part: Seq<char>, b: Seq<char>, needle: Seq<char>)
    requires
        mentions(part, needle),
    ensures
        mentions(a + part + b, needle),
{
    let n = needle.len();
    let i = choose|i: int| 0 <= i && i + n <= part.len() && #[trigger] part.subrange(i, i + n)
        == needle;
    let k = a.len() + i;
    assert((a + part + b).subrange(k, k + n) =~= part.subrange(i, i + n));
}

proof fn lemma_mentions_itself(a: Seq<char>, needle: Seq<char>, b: Seq<char>)
    ensures
        mentions(a + needle + b, needle),
{
    assert(needle.subrange(0int, 0int + needle.len()) =~= needle);
    assert(mentions(needle, needle));
    lemma_mentions_within(a, needle, b, needle);
}

/// What a part of a report mentions, the report mentions.
proof fn lemma_report_mentions(
    facts: DoctorModel,
    unknown: Seq<Seq<char>>,
    part: Seq<char>,
    needle: Seq<char>,
)
    requires
        mentions(part, needle),
        ({
            ||| part == procs_line(facts.procs_error)
            ||| part == counts_line(facts.scan)
            ||| part == dir_line(facts.scan)
            ||| part == parse_line(facts.scan)
            ||| part == statuses_line(unknown)
            ||| part == versions_line(facts.versions)
            ||| part == identity_line(facts.exact_panes, facts.sessions.len())
            ||| part == cmux_line(facts.cmux)
            ||| part == outside_line(facts)
            ||| part == sessions_heading(facts.sessions.len())
            ||| part == session_lines(facts.sessions)
        }),
    ensures
        mentions(report_with(facts, unknown), needle),
{
    lemma_sum_mentions(
        seq![
            title(),
            procs_line(facts.procs_error),
            counts_line(facts.scan),
            dir_line(facts.scan),
            parse_line(facts.scan),
            statuses_line(unknown),
            versions_line(facts.versions),
            identity_line(facts.exact_panes, facts.sessions.len()),
            cmux_line(facts.cmux),
            outside_line(facts),
            sessions_heading(facts.sessions.len()),
            session_lines(facts.sessions),
        ],
        part,
        needle,
    );
}

/// What one of twelve texts mentions, their sum mentions.
proof fn lemma_sum_mentions(parts: Seq<Seq<char>>, part: Seq<char>, needle: Seq<char>)
    requires
        parts.len() == 12,
        mentions(part, needle),
        ({
            ||| part == parts[1]
            ||| part == parts[2]
            ||| part == parts[3]
            ||| part == parts[4]
            ||| part == parts[5]
            ||| part == parts[6]
            ||| part == parts[7]
            ||| part == parts[8]
            ||| part == parts[9]
            ||| part == parts[10]
            ||| part == parts[11]
        }),
    ensures
        mentions(
            parts[0] + parts[1] + parts[2] + parts[3] + parts[4] + parts[5] + parts[6] + parts[7]
                + parts[8] + parts[9] + parts[10] + parts[11],
            needle,
        ),
{
    let s1 = parts[0] + parts[1];
    let s2 = s1 + parts[2];
    let s3 = s2 + parts[3];
    let s4 = s3 + parts[4];
    let s5 = s4 + parts[5];
    let s6 = s5 + parts[6];
    let s7 = s6 + parts[7];
    let s8 = s7 + parts[8];
    let s9 = s8 + parts[9];
    let s10 = s9 + parts[10];
    lemma_mentions_either(parts[0], parts[1], needle);
    lemma_mentions_either(s1, parts[2], needle);
    lemma_mentions_either(s2, parts[3], needle);
    lemma_mentions_either(s3, parts[4], needle);
    lemma_mentions_either(s4, parts[5], needle);
    lemma_mentions_either(s5, parts[6], needle);
    lemma_mentions_either(s6, parts[7], needle);
    lemma_mentions_either(s7, parts[8], needle);
    lemma_mentions_either(s8, parts[9], needle);
    lemma_mentions_either(s9, parts[10], needle);
    lemma_mentions_either(s10, parts[11], needle);
}

proof fn lemma_mentions_either(a: Seq<char>, b: Seq<char>, needle: Seq<char>)
    ensures
        mentions(a, needle) || mentions(b, needle) ==> mentions(a + b, needle),
{
    let none = Seq::<char>::empty();
    if mentions(a, needle) {
        lemma_mentions_within(none, a, b, needle);
        assert(none + a + b =~= a + b);
    }
    if mentions(b, needle) {
        lemma_mentions_within(a, b, none, needle);
        assert(a + b + none =~= a + b);
    }
}

/// A failed process table is named in the report, with its error, and the report says that this
/// is not an empty fleet.
pub proof fn a_failed_process_table_is_named(
    facts: DoctorModel,
    unknown: Seq<Seq<char>>,
    error: Seq<char>,
)
    requires
        facts.procs_error == Some(error),
    ensures
        mentions(report_with(facts, unknown), "process table unavailable: "@ + error),
        mentions(report_with(facts, unknown), "NOT an empty fleet"@),
{
    let line = procs_line(facts.procs_error);
    lemma_procs_line_names(error);
    lemma_report_mentions(facts, unknown, line, "process table unavailable: "@ + error);
    lemma_report_mentions(facts, unknown, line, "NOT an empty fleet"@);
}

proof fn lemma_procs_line_names(error: Seq<char>)
    ensures
        mentions(procs_line(Some(error)), "process table unavailable: "@ + error),
        mentions(procs_line(Some(error)), "NOT an empty fleet"@),
{
    let line = procs_line(Some(error));
    let start = "  ⚠ process table unavailable: "@;
    let end = " — every session reads as dead, this is NOT an empty fleet\n"@;
    let middle = " — every session reads as dead, this is "@;
    let fleet = "NOT an empty fleet"@;
    lemma_procs_literals();
    lemma_regroup("  ⚠ "@, "process table unavailable: "@, error, end);
    lemma_mentions_itself("  ⚠ "@, "process table unavailable: "@ + error, end);
    lemma_regroup(start + error, middle, fleet, "\n"@);
    lemma_mentions_itself(start + error + middle, fleet, "\n"@);
}

#[verifier::rlimit(40)]
proof fn lemma_procs_literals()
    ensures
        "  ⚠ process table unavailable: "@ == "  ⚠ "@ + "process table unavailable: "@,
        " — every session reads as dead, this is NOT an empty fleet\n"@
            == " — every session reads as dead, this is "@ + "NOT an empty fleet"@ + "\n"@,
{
    assert("  ⚠ process table unavailable: "@ =~= "  ⚠ "@ + "process table unavailable: "@) by {
        reveal_strlit("  ⚠ process table unavailable: ");
        reveal_strlit("  ⚠ ");
        reveal_strlit("process table unavailable: ");
    }
    assert(" — every session reads as dead, this is NOT an empty fleet\n"@
        =~= " — every session reads as dead, this is "@ + "NOT an empty fleet"@ + "\n"@) by {
        reveal_strlit(" — every session reads as dead, this is NOT an empty fleet\n");
        reveal_strlit(" — every session reads as dead, this is ");
        reveal_strlit("NOT an empty fleet");
        reveal_strlit("\n");
    }
}

/// How four texts in a row are grouped makes no difference.
proof fn lemma_regroup(a: Seq<char>, b: Seq<char>, c: Seq<char>, d: Seq<char>)
    ensures
        a + b + c + d == a + (b + c) + d,
        a + b + c + d == a + (b + c + d),
        a + b + c == a + (b + c),
{
    assert(a + b + c + d =~= a + (b + c) + d);
    assert(a + b + c + d =~= a + (b + c + d));
    assert(a + b + c =~= a + (b + c));
}

/// An unreadable sessions directory is named in the report, which says that this is not an empty
/// fleet.
#[verifier::rlimit(40)]
pub proof fn an_unreadable_directory_is_named(facts: DoctorModel, unknown: Seq<Seq<char>>)
    requires
        facts.scan.dir_unreadable,
    ensures
        mentions(report_with(facts, unknown), "sessions dir unreadable"@),
        mentions(report_with(facts, unknown), "NOT an empty fleet"@),
{
    let line = dir_line(facts.scan);
    let middle = " — scan failed, this is "@;
    let fleet = "NOT an empty fleet"@;
    let dir = "sessions dir unreadable"@;
    assert(line =~= "  ⚠ "@ + dir + (middle + fleet + "\n"@)) by {
        reveal_strlit("  ⚠ sessions dir unreadable — scan failed, this is NOT an empty fleet\n");
        reveal_strlit("  ⚠ ");
        reveal_strlit("sessions dir unreadable");
        reveal_strlit(" — scan failed, this is ");
        reveal_strlit("NOT an empty fleet");
        reveal_strlit("\n");
    }
    lemma_mentions_itself("  ⚠ "@, dir, middle + fleet + "\n"@);
    assert(line =~= ("  ⚠ "@ + dir + middle) + fleet + "\n"@);
    lemma_mentions_itself("  ⚠ "@ + dir + middle, fleet, "\n"@);
    lemma_report_mentions(facts, unknown, line, dir);
    lemma_report_mentions(facts, unknown, line, fleet);
}

/// Whether nothing has drifted: every source was read, every file parsed, every status is known,
/// and, where there are sessions, one of them knows its surface.
pub open spec fn all_clean(facts: DoctorModel) -> bool {
    &&& facts.procs_error is None
    &&& !facts.scan.dir_unreadable
    &&& facts.scan.parse_failed == 0
    &&& facts.unknown_statuses.len() == 0
    &&& facts.cmux is Ok
    &&& facts.exact_panes > 0 || facts.sessions.len() == 0
}

broadcast proof fn lemma_contains_in_sum(a: Seq<char>, b: Seq<char>, c: char)
    ensures
        #[trigger] (a + b).contains(c) <==> a.contains(c) || b.contains(c),
{
    let s = a + b;
    if s.contains(c) {
        let i = choose|i: int| 0 <= i < s.len() && s[i] == c;
        if i < a.len() {
            assert(a[i] == c);
        } else {
            assert(b[i - a.len()] == c);
        }
    }
    if a.contains(c) {
        let i = choose|i: int| 0 <= i < a.len() && a[i] == c;
        assert(s[i] == c);
    }
    if b.contains(c) {
        let i = choose|i: int| 0 <= i < b.len() && b[i] == c;
        assert(s[a.len() + i] == c);
    }
}

proof fn lemma_number_is_plain(n: nat)
    ensures
        !decimal(n).contains('⚠'),
{
    lemma_decimal_digits(n);
    let s = decimal(n);
    if s.contains('⚠') {
        let i = choose|i: int| 0 <= i < s.len() && s[i] == '⚠';
        assert(is_digit(s[i]));
    }
}

proof fn lemma_join_is_plain(items: Seq<Seq<char>>, sep: Seq<char>)
    requires
        forall|i: int| 0 <= i < items.len() ==> !(#[trigger] items[i]).contains('⚠'),
        !sep.contains('⚠'),
    ensures
        !join(items, sep).contains('⚠'),
    decreases items.len(),
{
    if items.len() > 1 {
        let front = items.drop_last();
        assert forall|i: int| 0 <= i < front.len() implies !(#[trigger] front[i]).contains('⚠') by {
            assert(front[i] == items[i]);
        }
        lemma_join_is_plain(front, sep);
        assert(!items[items.len() - 1].contains('⚠'));
        lemma_contains_in_sum(join(front, sep), sep, '⚠');
        lemma_contains_in_sum(join(front, sep) + sep, items.last(), '⚠');
    }
}

proof fn lemma_session_line_is_plain(session: (Seq<char>, bool, bool, bool))
    requires
        !session.0.contains('⚠'),
    ensures
        !session_line(session).contains('⚠'),
{
    broadcast use lemma_contains_in_sum;

    reveal_strlit("  ");
    reveal_strlit("✓");
    reveal_strlit("✗");
    reveal_strlit(" transcript · ");
    reveal_strlit(" account · ");
    reveal_strlit(" pane — ");
    reveal_strlit("\n");
}

proof fn lemma_sessions_are_plain(sessions: Seq<(Seq<char>, bool, bool, bool)>)
    requires
        forall|i: int| 0 <= i < sessions.len() ==> !(#[trigger] sessions[i]).0.contains('⚠'),
    ensures
        !session_lines(sessions).contains('⚠'),
    decreases sessions.len(),
{
    if sessions.len() > 0 {
        let front = sessions.drop_last();
        assert forall|i: int| 0 <= i < front.len() implies !(#[trigger] front[i]).0.contains(
            '⚠',
        ) by {
            assert(front[i] == sessions[i]);
        }
        lemma_sessions_are_plain(front);
        assert(!sessions[sessions.len() - 1].0.contains('⚠'));
        lemma_session_line_is_plain(sessions.last());
        lemma_contains_in_sum(session_lines(front), session_line(sessions.last()), '⚠');
    }
}

/// The report shows a warning sign exactly where something has drifted, as long as no session
/// name and no version holds that sign itself.
#[verifier::rlimit(40)]
pub proof fn a_warning_means_drift(facts: DoctorModel)
    requires
        forall|i: int|
            0 <= i < facts.sessions.len() ==> !(#[trigger] facts.sessions[i]).0.contains('⚠'),
        forall|i: int|
            0 <= i < facts.versions.len() ==> !(#[trigger] facts.versions[i]).contains('⚠'),
    ensures
        report_text(facts).contains('⚠') <==> !all_clean(facts),
{
    broadcast use lemma_contains_in_sum;

    reveal_strlit("fleet doctor — read-only drift report\n\n");
    lemma_procs_line_warns(facts.procs_error);
    lemma_scan_lines_warn(facts.scan);
    lemma_statuses_line_warns(all_quoted(facts.unknown_statuses));
    lemma_versions_line_is_plain(facts.versions);
    lemma_surface_lines_warn(facts);
    lemma_sessions_are_plain(facts.sessions);
}

proof fn lemma_procs_line_warns(procs_error: Option<Seq<char>>)
    ensures
        procs_line(procs_error).contains('⚠') <==> procs_error is Some,
{
    broadcast use lemma_contains_in_sum;

    reveal_strlit("  ⚠ process table unavailable: ");
    assert("  ⚠ process table unavailable: "@[2] == '⚠');
}

proof fn lemma_scan_lines_warn(scan: ScanStats)
    ensures
        !counts_line(scan).contains('⚠'),
        dir_line(scan).contains('⚠') <==> scan.dir_unreadable,
        parse_line(scan).contains('⚠') <==> scan.parse_failed > 0,
{
    broadcast use lemma_contains_in_sum;

    reveal_strlit("session files: ");
    reveal_strlit(" total · ");
    reveal_strlit(" live · ");
    reveal_strlit(" stale-dead · ");
    reveal_strlit(" parse-failed\n");
    lemma_number_is_plain(scan.total_files as nat);
    lemma_number_is_plain(scan.live as nat);
    lemma_number_is_plain(scan.stale_dead as nat);
    lemma_number_is_plain(scan.parse_failed as nat);
    reveal_strlit("  ⚠ sessions dir unreadable — scan failed, this is NOT an empty fleet\n");
    assert("  ⚠ sessions dir unreadable — scan failed, this is NOT an empty fleet\n"@[2] == '⚠');
    reveal_strlit("  ⚠ parse failures — sessions/<pid>.json format may have drifted (A1)\n");
    assert("  ⚠ parse failures — sessions/<pid>.json format may have drifted (A1)\n"@[2] == '⚠');
}

proof fn lemma_statuses_line_warns(unknown: Seq<Seq<char>>)
    ensures
        statuses_line(unknown).contains('⚠') <==> unknown.len() > 0,
{
    broadcast use lemma_contains_in_sum;

    reveal_strlit("native statuses: all known (busy/idle/shell/waiting)\n");
    reveal_strlit("  ⚠ unknown native statuses: {");
    assert("  ⚠ unknown native statuses: {"@[2] == '⚠');
}

proof fn lemma_versions_line_is_plain(versions: Seq<Seq<char>>)
    requires
        forall|i: int| 0 <= i < versions.len() ==> !(#[trigger] versions[i]).contains('⚠'),
    ensures
        !versions_line(versions).contains('⚠'),
{
    broadcast use lemma_contains_in_sum;

    reveal_strlit("cc versions in live files: ");
    reveal_strlit("none");
    reveal_strlit("\n");
    reveal_strlit(", ");
    lemma_join_is_plain(versions, ", "@);
}

proof fn lemma_surface_lines_warn(facts: DoctorModel)
    ensures
        !identity_line(facts.exact_panes, facts.sessions.len()).contains('⚠'),
        cmux_line(facts.cmux).contains('⚠') <==> facts.cmux is Err,
        outside_line(facts).contains('⚠') <==> facts.exact_panes == 0 && facts.sessions.len() > 0
            && facts.cmux is Ok,
        !sessions_heading(facts.sessions.len()).contains('⚠'),
{
    broadcast use lemma_contains_in_sum;

    reveal_strlit("pane identity: ");
    reveal_strlit(" of ");
    reveal_strlit(" sessions exact (CMUX_SURFACE_ID)\n");
    lemma_number_is_plain(facts.exact_panes as nat);
    lemma_number_is_plain(facts.sessions.len());
    reveal_strlit("cmux: ");
    reveal_strlit(" terminals\n");
    if facts.cmux is Ok {
        lemma_number_is_plain(facts.cmux->Ok_0 as nat);
    }
    reveal_strlit("  ⚠ cmux unreachable: ");
    assert("  ⚠ cmux unreachable: "@[2] == '⚠');
    reveal_strlit(
        "  ⚠ no session carries CMUX_SURFACE_ID — sessions started outside cmux cannot be jumped to\n",
    );
    assert("  ⚠ no session carries CMUX_SURFACE_ID — sessions started outside cmux cannot be jumped to\n"@[2]
        == '⚠');
    reveal_strlit("\nlive sessions (");
    reveal_strlit("):\n");
}

/// What follows the tallies in a report.
spec fn after_scan_lines(facts: DoctorModel, unknown: Seq<Seq<char>>) -> Seq<char> {
    statuses_line(unknown) + versions_line(facts.versions) + identity_line(
        facts.exact_panes,
        facts.sessions.len(),
    ) + cmux_line(facts.cmux) + outside_line(facts) + sessions_heading(facts.sessions.len())
        + session_lines(facts.sessions)
}

/// Whether the scan can be trusted is said before anything that was scanned.
pub proof fn the_scan_is_judged_first(facts: DoctorModel, unknown: Seq<Seq<char>>)
    ensures
        starts_with(
            report_with(facts, unknown),
            title() + procs_line(facts.procs_error) + counts_line(facts.scan) + dir_line(facts.scan)
                + parse_line(facts.scan),
        ),
{
    let front = title() + procs_line(facts.procs_error) + counts_line(facts.scan) + dir_line(
        facts.scan,
    ) + parse_line(facts.scan);
    let whole = report_with(facts, unknown);
    assert(whole =~= front + after_scan_lines(facts, unknown));
    assert(whole.take(front.len() as int) =~= front);
}

/// The report tells the tallies, each by its name.
#[verifier::rlimit(40)]
pub proof fn the_tallies_are_told(facts: DoctorModel, unknown: Seq<Seq<char>>)
    ensures
        mentions(
            report_with(facts, unknown),
            "session files: "@ + decimal(facts.scan.total_files as nat) + " total · "@ + decimal(
                facts.scan.live as nat,
            ) + " live · "@ + decimal(facts.scan.stale_dead as nat) + " stale-dead · "@ + decimal(
                facts.scan.parse_failed as nat,
            ) + " parse-failed\n"@,
        ),
        facts.scan.parse_failed > 0 ==> mentions(report_with(facts, unknown), "parse failures"@),
{
    let none = Seq::<char>::empty();
    let line = counts_line(facts.scan);
    lemma_mentions_itself(none, line, none);
    assert(none + line + none =~= line);
    lemma_report_mentions(facts, unknown, line, line);
    if facts.scan.parse_failed > 0 {
        reveal_strlit("  ⚠ parse failures — sessions/<pid>.json format may have drifted (A1)\n");
        reveal_strlit("parse failures");
        reveal_strlit("  ⚠ ");
        let warning = parse_line(facts.scan);
        let rest = warning.skip(18);
        assert(warning =~= "  ⚠ "@ + "parse failures"@ + rest);
        lemma_mentions_itself("  ⚠ "@, "parse failures"@, rest);
        lemma_report_mentions(facts, unknown, warning, "parse failures"@);
    }
}

proof fn lemma_join_mentions(items: Seq<Seq<char>>, sep: Seq<char>, i: int)
    requires
        0 <= i < items.len(),
    ensures
        mentions(join(items, sep), items[i]),
    decreases items.len(),
{
    let none = Seq::<char>::empty();
    lemma_mentions_itself(none, items[i], none);
    assert(none + items[i] + none =~= items[i]);
    if items.len() > 1 {
        let front = items.drop_last();
        lemma_mentions_either(join(front, sep), sep, items[i]);
        lemma_mentions_either(join(front, sep) + sep, items.last(), items[i]);
        if i < front.len() {
            assert(front[i] == items[i]);
            lemma_join_mentions(front, sep, i);
        }
    }
}

/// Every unknown status and every version is told.
#[verifier::rlimit(40)]
pub proof fn what_was_seen_is_told(facts: DoctorModel, unknown: Seq<Seq<char>>, i: int)
    ensures
        0 <= i < unknown.len() ==> mentions(report_with(facts, unknown), unknown[i]),
        unknown.len() > 0 ==> mentions(
            report_with(facts, unknown),
            "unknown native statuses: {"@ + join(unknown, ", "@) + "}"@,
        ),
        unknown.len() == 0 ==> mentions(
            report_with(facts, unknown),
            "native statuses: all known"@,
        ),
        0 <= i < facts.versions.len() ==> mentions(
            report_with(facts, unknown),
            facts.versions[i],
        ),
        facts.versions.len() > 0 ==> mentions(
            report_with(facts, unknown),
            "cc versions in live files: "@ + join(facts.versions, ", "@) + "\n"@,
        ),
        facts.versions.len() == 0 ==> mentions(
            report_with(facts, unknown),
            "cc versions in live files: none\n"@,
        ),
{
    let none = Seq::<char>::empty();
    let line = statuses_line(unknown);
    if unknown.len() > 0 {
        let (open, close) = ("  ⚠ unknown native statuses: {"@, "} — fold shows these as Unknown\n"@);
        let list = join(unknown, ", "@);
        let needle = "unknown native statuses: {"@ + list + "}"@;
        let rest = close.skip(1);
        assert(line =~= "  ⚠ "@ + needle + rest) by {
            reveal_strlit("  ⚠ unknown native statuses: {");
            reveal_strlit("unknown native statuses: {");
            reveal_strlit("  ⚠ ");
            reveal_strlit("} — fold shows these as Unknown\n");
            reveal_strlit("}");
            assert(open =~= "  ⚠ "@ + "unknown native statuses: {"@);
            assert(close =~= "}"@ + rest);
        }
        lemma_mentions_itself("  ⚠ "@, needle, rest);
        lemma_report_mentions(facts, unknown, line, needle);
        if 0 <= i < unknown.len() {
            lemma_join_mentions(unknown, ", "@, i);
            lemma_mentions_within(open, list, close, unknown[i]);
            lemma_report_mentions(facts, unknown, line, unknown[i]);
        }
    } else {
        let needle = "native statuses: all known"@;
        let rest = line.skip(needle.len() as int);
        assert(line =~= none + needle + rest) by {
            reveal_strlit("native statuses: all known (busy/idle/shell/waiting)\n");
            reveal_strlit("native statuses: all known");
        }
        lemma_mentions_itself(none, needle, rest);
        lemma_report_mentions(facts, unknown, line, needle);
    }
    lemma_versions_are_told(facts, unknown, i);
}

#[verifier::rlimit(40)]
proof fn lemma_versions_are_told(facts: DoctorModel, unknown: Seq<Seq<char>>, i: int)
    ensures
        0 <= i < facts.versions.len() ==> mentions(
            report_with(facts, unknown),
            facts.versions[i],
        ),
        facts.versions.len() > 0 ==> mentions(
            report_with(facts, unknown),
            "cc versions in live files: "@ + join(facts.versions, ", "@) + "\n"@,
        ),
        facts.versions.len() == 0 ==> mentions(
            report_with(facts, unknown),
            "cc versions in live files: none\n"@,
        ),
{
    let none = Seq::<char>::empty();
    let line = versions_line(facts.versions);
    lemma_mentions_itself(none, line, none);
    assert(none + line + none =~= line);
    lemma_report_mentions(facts, unknown, line, line);
    if facts.versions.len() == 0 {
        lemma_no_version_literal();
    } else {
        let list = join(facts.versions, ", "@);
        if 0 <= i < facts.versions.len() {
            lemma_join_mentions(facts.versions, ", "@, i);
            lemma_mentions_within("cc versions in live files: "@, list, "\n"@, facts.versions[i]);
            lemma_report_mentions(facts, unknown, line, facts.versions[i]);
        }
    }
}

proof fn lemma_no_version_literal()
    ensures
        "cc versions in live files: "@ + "none"@ + "\n"@ == "cc versions in live files: none\n"@,
{
    reveal_strlit("cc versions in live files: ");
    reveal_strlit("none");
    reveal_strlit("\n");
    reveal_strlit("cc versions in live files: none\n");
    assert("cc versions in live files: "@ + "none"@ + "\n"@
        =~= "cc versions in live files: none\n"@);
}

/// The report tells how many sessions know their surface, of how many; how many terminals cmux
/// has, or how it could not be reached; and, where cmux can be reached but no session knows its
/// surface, that none does.
#[verifier::rlimit(40)]
pub proof fn the_surfaces_are_told(facts: DoctorModel, unknown: Seq<Seq<char>>)
    ensures
        mentions(
            report_with(facts, unknown),
            "pane identity: "@ + decimal(facts.exact_panes as nat) + " of "@ + decimal(
                facts.sessions.len(),
            ) + " sessions exact"@,
        ),
        match facts.cmux {
            Ok(count) => mentions(
                report_with(facts, unknown),
                "cmux: "@ + decimal(count as nat) + " terminals"@,
            ),
            Err(e) => mentions(report_with(facts, unknown), "cmux unreachable: "@ + e),
        },
        facts.exact_panes == 0 && facts.sessions.len() > 0 && facts.cmux is Ok ==> mentions(
            report_with(facts, unknown),
            "no session carries CMUX_SURFACE_ID"@,
        ),
        mentions(
            report_with(facts, unknown),
            "live sessions ("@ + decimal(facts.sessions.len()) + "):\n"@,
        ),
{
    let none = Seq::<char>::empty();
    let identity = identity_line(facts.exact_panes, facts.sessions.len());
    let needle = "pane identity: "@ + decimal(facts.exact_panes as nat) + " of "@ + decimal(
        facts.sessions.len(),
    ) + " sessions exact"@;
    assert(identity =~= none + needle + " (CMUX_SURFACE_ID)\n"@) by {
        reveal_strlit(" sessions exact (CMUX_SURFACE_ID)\n");
        reveal_strlit(" sessions exact");
        reveal_strlit(" (CMUX_SURFACE_ID)\n");
        assert(" sessions exact (CMUX_SURFACE_ID)\n"@ =~= " sessions exact"@
            + " (CMUX_SURFACE_ID)\n"@);
    }
    lemma_mentions_itself(none, needle, " (CMUX_SURFACE_ID)\n"@);
    lemma_report_mentions(facts, unknown, identity, needle);
    lemma_cmux_is_told(facts, unknown);
    let heading = sessions_heading(facts.sessions.len());
    let listed = "live sessions ("@ + decimal(facts.sessions.len()) + "):\n"@;
    assert(heading =~= "\n"@ + listed + none) by {
        reveal_strlit("\nlive sessions (");
        reveal_strlit("live sessions (");
        reveal_strlit("\n");
        assert("\nlive sessions ("@ =~= "\n"@ + "live sessions ("@);
    }
    lemma_mentions_itself("\n"@, listed, none);
    lemma_report_mentions(facts, unknown, heading, listed);
}

#[verifier::rlimit(40)]
proof fn lemma_cmux_is_told(facts: DoctorModel, unknown: Seq<Seq<char>>)
    ensures
        match facts.cmux {
            Ok(count) => mentions(
                report_with(facts, unknown),
                "cmux: "@ + decimal(count as nat) + " terminals"@,
            ),
            Err(e) => mentions(report_with(facts, unknown), "cmux unreachable: "@ + e),
        },
        facts.exact_panes == 0 && facts.sessions.len() > 0 && facts.cmux is Ok ==> mentions(
            report_with(facts, unknown),
            "no session carries CMUX_SURFACE_ID"@,
        ),
{
    let none = Seq::<char>::empty();
    let line = cmux_line(facts.cmux);
    lemma_cmux_literals();
    match facts.cmux {
        Ok(count) => {
            let number = decimal(count as nat);
            let needle = "cmux: "@ + number + " terminals"@;
            lemma_regroup("cmux: "@ + number, " terminals"@, "\n"@, none);
            lemma_mentions_itself(none, needle, "\n"@);
            assert(none + needle =~= needle);
            lemma_report_mentions(facts, unknown, line, needle);
        },
        Err(e) => {
            let rest = " — jump lane degraded (A2)\n"@;
            lemma_regroup("  ⚠ "@, "cmux unreachable: "@, e, rest);
            lemma_mentions_itself("  ⚠ "@, "cmux unreachable: "@ + e, rest);
            lemma_report_mentions(facts, unknown, line, "cmux unreachable: "@ + e);
        },
    }
    if facts.exact_panes == 0 && facts.sessions.len() > 0 && facts.cmux is Ok {
        let warning = outside_line(facts);
        let needle = "no session carries CMUX_SURFACE_ID"@;
        let rest = " — sessions started outside cmux cannot be jumped to\n"@;
        lemma_outside_literal();
        lemma_mentions_itself("  ⚠ "@, needle, rest);
        lemma_report_mentions(facts, unknown, warning, needle);
    }
}

proof fn lemma_cmux_literals()
    ensures
        " terminals\n"@ == " terminals"@ + "\n"@,
        "  ⚠ cmux unreachable: "@ == "  ⚠ "@ + "cmux unreachable: "@,
{
    reveal_strlit(" terminals\n");
    reveal_strlit(" terminals");
    reveal_strlit("\n");
    assert(" terminals\n"@ =~= " terminals"@ + "\n"@);
    reveal_strlit("  ⚠ cmux unreachable: ");
    reveal_strlit("cmux unreachable: ");
    reveal_strlit("  ⚠ ");
    assert("  ⚠ cmux unreachable: "@ =~= "  ⚠ "@ + "cmux unreachable: "@);
}

#[verifier::rlimit(40)]
proof fn lemma_outside_literal()
    ensures
        "  ⚠ no session carries CMUX_SURFACE_ID — sessions started outside cmux cannot be jumped to\n"@
            == "  ⚠ "@ + "no session carries CMUX_SURFACE_ID"@
            + " — sessions started outside cmux cannot be jumped to\n"@,
{
    reveal_strlit(
        "  ⚠ no session carries CMUX_SURFACE_ID — sessions started outside cmux cannot be jumped to\n",
    );
    reveal_strlit("  ⚠ ");
    reveal_strlit("no session carries CMUX_SURFACE_ID");
    reveal_strlit(" — sessions started outside cmux cannot be jumped to\n");
    assert("  ⚠ no session carries CMUX_SURFACE_ID — sessions started outside cmux cannot be jumped to\n"@
        =~= "  ⚠ "@ + "no session carries CMUX_SURFACE_ID"@
        + " — sessions started outside cmux cannot be jumped to\n"@);
}

/// Every session is listed, under its name, with what was found of it: its transcript, its account
/// and its pane, in this order.
pub proof fn every_session_is_listed(facts: DoctorModel, unknown: Seq<Seq<char>>, i: int)
    requires
        0 <= i < facts.sessions.len(),
    ensures
        ({
            let (name, transcript, account, pane) = facts.sessions[i];
            mentions(
                report_with(facts, unknown),
                "  "@ + (if transcript {
                    "✓"@
                } else {
                    "✗"@
                }) + " transcript · "@ + (if account {
                    "✓"@
                } else {
                    "✗"@
                }) + " account · "@ + (if pane {
                    "✓"@
                } else {
                    "✗"@
                }) + " pane — "@ + name + "\n"@,
            )
        }),
{
    lemma_session_is_listed(facts.sessions, i);
    lemma_report_mentions(
        facts,
        unknown,
        session_lines(facts.sessions),
        session_line(facts.sessions[i]),
    );
}

proof fn lemma_session_is_listed(sessions: Seq<(Seq<char>, bool, bool, bool)>, i: int)
    requires
        0 <= i < sessions.len(),
    ensures
        mentions(session_lines(sessions), session_line(sessions[i])),
    decreases sessions.len(),
{
    let front = sessions.drop_last();
    let line = session_line(sessions[i]);
    let none = Seq::<char>::empty();
    lemma_mentions_itself(none, line, none);
    assert(none + line + none =~= line);
    if i < front.len() {
        assert(front[i] == sessions[i]);
        lemma_session_is_listed(front, i);
    }
    lemma_mentions_either(session_lines(front), session_line(sessions.last()), line);
}

/// What the doctor finds of a session is its name, whether its transcript was read, whether it has
/// an account, and whether its surface is there.
pub proof fn a_finding_is_of_its_session(
    sessions: Seq<LiveSessionModel>,
    telemetry: Seq<TelemetryModel>,
    surfaces: Seq<SurfaceModel>,
    i: int,
)
    requires
        0 <= i < sessions.len(),
    ensures
        findings_of(sessions, telemetry, surfaces).len() == sessions.len(),
        ({
            let (name, transcript, account, pane) = findings_of(sessions, telemetry, surfaces)[i];
            &&& name == sessions[i].file.name
            &&& transcript <==> i < telemetry.len() && telemetry[i].facts is Some
            &&& account <==> sessions[i].account is Some
            &&& pane <==> exists|k: int|
                #![trigger surfaces[k]]
                0 <= k < surfaces.len() && sessions[i].surface_id == Some(surfaces[k].id)
        }),
{
    if let Some(id) = sessions[i].surface_id {
        a_match_tells_its_surface(id, surfaces);
    }
}

/// The sessions that know their surface are counted one by one.
pub proof fn sessions_are_counted_one_by_one(
    a: Seq<LiveSessionModel>,
    b: Seq<LiveSessionModel>,
    s: LiveSessionModel,
)
    ensures
        exact_count(a + b) == exact_count(a) + exact_count(b),
        exact_count(seq![s]) == if s.surface_id is Some {
            1nat
        } else {
            0nat
        },
        exact_count(a) <= a.len(),
    decreases b.len(), a.len(),
{
    reveal_with_fuel(exact_count, 2);
    assert(seq![s].drop_last() =~= Seq::<LiveSessionModel>::empty());
    if a.len() > 0 {
        sessions_are_counted_one_by_one(a.drop_last(), Seq::empty(), s);
    }
    if b.len() == 0 {
        assert(a + b =~= a);
    } else {
        sessions_are_counted_one_by_one(a, b.drop_last(), s);
        assert((a + b).drop_last() =~= a + b.drop_last());
        assert((a + b).last() == b.last());
    }
}

/// A status is seen as unknown where a session has one of that name that is not known, and a
/// version where a session's file was written by it.
pub proof fn statuses_and_versions_are_those_seen(
    sessions: Seq<LiveSessionModel>,
    s: LiveSessionModel,
    t: Seq<char>,
)
    ensures
        !seen_unknown(Seq::empty(), t),
        !seen_version(Seq::empty(), t),
        seen_unknown(sessions.push(s), t) <==> seen_unknown(sessions, t) || s.file.status
            == NativeStatusModel::Other(t),
        seen_version(sessions.push(s), t) <==> seen_version(sessions, t) || s.file.version
            == Some(t),
{
    let all = sessions.push(s);
    let n = sessions.len() as int;
    lemma_seen_one_more(all, n);
    assert(all.take(n + 1) =~= all);
    assert(all.take(n) =~= sessions);
    assert(seen_unknown(all.take(n + 1), t) == seen_unknown(all, t));
    assert(seen_version(all.take(n + 1), t) == seen_version(all, t));
}

/// A model of the facts holds each of them.
pub proof fn doctor_models_hold_every_field(facts: DoctorFacts, topology: AppResult<Vec<Surface>>)
    ensures
        facts@.scan == facts.scan,
        facts@.unknown_statuses == facts.unknown_statuses@,
        facts@.versions == facts.versions@,
        facts@.exact_panes == facts.exact_panes,
        match (facts.cmux, facts@.cmux) {
            (Ok(n), Ok(m)) => n == m,
            (Err(s), Err(t)) => s@ == t,
            _ => false,
        },
        match (facts.procs_error, facts@.procs_error) {
            (Some(s), Some(t)) => s@ == t,
            (None, None) => true,
            _ => false,
        },
        facts@.sessions.len() == facts.sessions@.len(),
        forall|i: int|
            #![trigger facts@.sessions[i]]
            0 <= i < facts.sessions@.len() ==> facts@.sessions[i] == (
                facts.sessions@[i].0@,
                facts.sessions@[i].1,
                facts.sessions@[i].2,
                facts.sessions@[i].3,
            ),
        match topology {
            Ok(surfaces) => surfaces_or_none(topology) == views_of(surfaces@),
            Err(_) => surfaces_or_none(topology).len() == 0,
        },
{
}

} // verus!
