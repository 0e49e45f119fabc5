//! The wezterm lane: classify agent panes, number their tabs, build jump commands.
//!
//! The glyph a title begins with is an undocumented convention: a braille spinner means working,
//! an asterisk idle, anything else that the pane is no agent's.

use vstd::prelude::*;
use vstd::slice::slice_subrange;
use vstd::string::*;
use crate::error::{error_text, AppError, AppResult};
use crate::lastgood::{lane_error, last_good_after, Fetched};
use crate::number::{decimal, decimal_text};
use crate::order::{a_sorted_list_holds_the_same, stable_sort, stable_sort_of, views_of, Ranked};
use crate::runner::{command, owned, plain_command, CommandSpec};
use crate::text::{
    a_prefix_and_its_rest_are_the_text, after_prefix, after_prefix_of, all_white, chars_of,
    find_char, is_white, lemma_position, lemma_position_is, lemma_trim_start_skips,
    len_without_trailing, occurs, only_the_trailing_are_cut, opt_text, position, starts_with,
    string_of, texts, trim_start, trim_start_of, without_trailing,
};

verus! {

/// The wezterm binary, as a search of the path finds it.
pub const WEZTERM: &'static str = "wezterm.exe";

/// Where the binary is installed: the fallback for a launcher with a minimal path.
pub const WEZTERM_ABSOLUTE: &'static str = "/mnt/c/Program Files/WezTerm/wezterm.exe";

/// Status of an agent's pane, read from its title glyph.
#[derive(Debug, Clone, Copy, PartialEq, Eq, Structural)]
pub enum PaneStatus {
    /// The title starts with a braille spinner frame.
    Working,
    /// The title starts with the idle asterisk.
    Idle,
}

/// One agent pane.
#[derive(Debug, PartialEq, Eq)]
pub struct PaneRow {
    /// The pane id: identity and jump target.
    pub pane_id: u64,
    /// The tab id: display grouping.
    pub tab_id: u64,
    /// 1-based position of the pane's tab within its window, counting every tab.
    pub tab_index: u64,
    /// Glyph-derived status.
    pub status: PaneStatus,
    /// The title without the glyph: the session's semantic name.
    pub name: String,
    /// Shortened working directory.
    pub cwd: String,
    /// Whether this pane is reported as the active one.
    pub is_active: bool,
}

/// What a `PaneRow` stands for.
pub struct PaneRowModel {
    pub pane_id: u64,
    pub tab_id: u64,
    pub tab_index: u64,
    pub status: PaneStatus,
    pub name: Seq<char>,
    pub cwd: Seq<char>,
    pub is_active: bool,
}

impl View for PaneRow {
    type V = PaneRowModel;

    open spec fn view(&self) -> PaneRowModel {
        PaneRowModel {
            pane_id: self.pane_id,
            tab_id: self.tab_id,
            tab_index: self.tab_index,
            status: self.status,
            name: self.name@,
            cwd: self.cwd@,
            is_active: self.is_active,
        }
    }
}

impl Clone for PaneRow {
    fn clone(&self) -> (r: Self)
        ensures
            r@ == self@,
    {
        PaneRow {
            pane_id: self.pane_id,
            tab_id: self.tab_id,
            tab_index: self.tab_index,
            status: self.status,
            name: self.name.clone(),
            cwd: self.cwd.clone(),
            is_active: self.is_active,
        }
    }
}

/// Pane rows rank by pane id.
impl Ranked for PaneRow {
    open spec fn le(a: PaneRowModel, b: PaneRowModel) -> bool {
        a.pane_id <= b.pane_id
    }

    proof fn le_total(a: PaneRowModel, b: PaneRowModel) {
    }

    proof fn le_transitive(a: PaneRowModel, b: PaneRowModel, c: PaneRowModel) {
    }

    fn not_after(&self, other: &Self) -> (r: bool) {
        self.pane_id <= other.pane_id
    }
}

/// One pane as wezterm lists it: the fields that are read.
#[derive(Debug, Clone, PartialEq, Eq)]
pub struct RawPane {
    pub pane_id: u64,
    pub tab_id: u64,
    pub window_id: u64,
    pub title: String,
    pub cwd: String,
    pub is_active: bool,
}

/// What a `RawPane` stands for.
pub struct RawPaneModel {
    pub pane_id: u64,
    pub tab_id: u64,
    pub window_id: u64,
    pub title: Seq<char>,
    pub cwd: Seq<char>,
    pub is_active: bool,
}

impl View for RawPane {
    type V = RawPaneModel;

    open spec fn view(&self) -> RawPaneModel {
        RawPaneModel {
            pane_id: self.pane_id,
            tab_id: self.tab_id,
            window_id: self.window_id,
            title: self.title@,
            cwd: self.cwd@,
            is_active: self.is_active,
        }
    }
}

/// The arguments that list panes.
pub fn list_args() -> (r: Vec<String>)
    ensures
        texts(r@) == seq!["cli"@, "list"@, "--format"@, "json"@],
{
    let r = owned(&["cli", "list", "--format", "json"]);
    assert(texts(r@) =~= seq!["cli"@, "list"@, "--format"@, "json"@]);
    r
}

/// The arguments that focus a pane within its tab.
pub fn activate_pane_args(pane_id: u64) -> (r: Vec<String>)
    ensures
        texts(r@) == seq!["cli"@, "activate-pane"@, "--pane-id"@, decimal(pane_id as nat)],
{
    let id = decimal_text(pane_id);
    let r = owned(&["cli", "activate-pane", "--pane-id", id.as_str()]);
    assert(texts(r@) =~= seq!["cli"@, "activate-pane"@, "--pane-id"@, decimal(pane_id as nat)]);
    r
}

/// The arguments that bring a tab forward. Focusing a pane does not: a jump runs both.
pub fn activate_tab_args(tab_id: u64) -> (r: Vec<String>)
    ensures
        texts(r@) == seq!["cli"@, "activate-tab"@, "--tab-id"@, decimal(tab_id as nat)],
{
    let id = decimal_text(tab_id);
    let r = owned(&["cli", "activate-tab", "--tab-id", id.as_str()]);
    assert(texts(r@) =~= seq!["cli"@, "activate-tab"@, "--tab-id"@, decimal(tab_id as nat)]);
    r
}

/// The program to run: the plain name where the path has it, the installed file where it does
/// not but that file is there, else the plain name, so that the spawn error stays visible.
pub open spec fn wezterm_program(
    on_path: bool,
    absolute_is_file: bool,
    absolute: Seq<char>,
) -> Seq<char> {
    if !on_path && absolute_is_file {
        absolute
    } else {
        WEZTERM@
    }
}

/// Chooses the program to run, from what was found on the path and at `absolute`.
pub fn resolve_wezterm(on_path: bool, absolute_is_file: bool, absolute: &str) -> (r: String)
    ensures
        r@ == wezterm_program(on_path, absolute_is_file, absolute@),
{
    if on_path {
        WEZTERM.to_owned()
    } else if absolute_is_file {
        absolute.to_owned()
    } else {
        WEZTERM.to_owned()
    }
}

/// The bounded list command.
pub fn list_spec(program: &str) -> (r: CommandSpec)
    ensures
        r@ == plain_command(program@, seq!["cli"@, "list"@, "--format"@, "json"@]),
{
    command(program, list_args())
}

/// The bounded command that focuses a pane.
pub fn activate_pane_spec(program: &str, pane_id: u64) -> (r: CommandSpec)
    ensures
        r@ == plain_command(
            program@,
            seq!["cli"@, "activate-pane"@, "--pane-id"@, decimal(pane_id as nat)],
        ),
{
    command(program, activate_pane_args(pane_id))
}

/// The bounded command that brings a tab forward.
pub fn activate_tab_spec(program: &str, tab_id: u64) -> (r: CommandSpec)
    ensures
        r@ == plain_command(
            program@,
            seq!["cli"@, "activate-tab"@, "--tab-id"@, decimal(tab_id as nat)],
        ),
{
    command(program, activate_tab_args(tab_id))
}

/// The status that a title's first character means.
pub open spec fn glyph_status(c: char) -> Option<PaneStatus> {
    if '\u{2800}' <= c <= '\u{28ff}' {
        Some(PaneStatus::Working)
    } else if c == '\u{2733}' {
        Some(PaneStatus::Idle)
    } else {
        None
    }
}

/// What a title tells: a status and a name; `None` where the pane is no agent's.
pub open spec fn classified(title: Seq<char>) -> Option<(PaneStatus, Seq<char>)> {
    if title.len() == 0 {
        None
    } else {
        match glyph_status(title[0]) {
            Some(status) => Some((status, trim_start(title.skip(1)))),
            None => None,
        }
    }
}

/// Classifies a pane title by its leading glyph; `None` means no agent's pane. Gives the status,
/// and the title without the glyph and the white space after it.
pub fn classify_title(title: &str) -> (r: Option<(PaneStatus, String)>)
    ensures
        match r {
            Some((status, name)) => classified(title@) == Some((status, name@)),
            None => classified(title@) is None,
        },
{
    let chars = chars_of(title);
    if chars.len() == 0 {
        return None;
    }
    let first = chars[0];
    let status = if '\u{2800}' <= first && first <= '\u{28ff}' {
        PaneStatus::Working
    } else if first == '\u{2733}' {
        PaneStatus::Idle
    } else {
        return None;
    };
    let rest = slice_subrange(chars.as_slice(), 1, chars.len());
    assert(rest@ =~= title@.skip(1));
    Some((status, string_of(trim_start_of(rest))))
}

/// A working directory as it is shown: of a URL the path within a WSL distribution, or the path
/// of a local file, without trailing slashes; anything else verbatim.
pub open spec fn shown_cwd(cwd: Seq<char>) -> Seq<char> {
    let trimmed = without_trailing(cwd, '/');
    match after_prefix(trimmed, "file://wsl.localhost/"@) {
        Some(rest) => {
            let i = position(rest, '/') as int;
            if i < rest.len() {
                seq!['/'] + rest.skip(i + 1)
            } else {
                seq!['/']
            }
        },
        None => match after_prefix(trimmed, "file:///"@) {
            Some(rest) => rest,
            None => cwd,
        },
    }
}

/// Shortens a `file://` directory for display; any other is shown verbatim.
pub fn short_cwd(cwd: &str) -> (r: String)
    ensures
        r@ == shown_cwd(cwd@),
{
    let chars = chars_of(cwd);
    let end = len_without_trailing(chars.as_slice(), '/');
    let trimmed = slice_subrange(chars.as_slice(), 0, end);
    assert(trimmed@ =~= without_trailing(cwd@, '/'));
    if let Some(rest) = after_prefix_of(trimmed, "file://wsl.localhost/") {
        let i = find_char(rest, '/');
        let mut out = String::new();
        out.push('/');
        if i < rest.len() {
            assert(rest@.subrange(i + 1, rest@.len() as int) =~= rest@.skip(i + 1));
            out.append(string_of(slice_subrange(rest, i + 1, rest.len())).as_str());
        }
        assert(out@ =~= shown_cwd(cwd@));
        return out;
    }
    if let Some(rest) = after_prefix_of(trimmed, "file:///") {
        return string_of(rest);
    }
    cwd.to_owned()
}

/// The tabs of a window, in the order in which panes first name them.
pub open spec fn tab_order(panes: Seq<RawPaneModel>, window_id: u64) -> Seq<u64>
    decreases panes.len(),
{
    if panes.len() == 0 {
        seq![]
    } else {
        let before = tab_order(panes.drop_last(), window_id);
        if panes.last().window_id == window_id && !before.contains(panes.last().tab_id) {
            before.push(panes.last().tab_id)
        } else {
            before
        }
    }
}

/// The 1-based position of a pane's tab within its window, every tab counted.
pub open spec fn tab_number(panes: Seq<RawPaneModel>, pane: RawPaneModel) -> nat {
    position(tab_order(panes, pane.window_id), pane.tab_id) + 1
}

/// A tab that a pane names is among its window's tabs.
proof fn lemma_tab_listed(panes: Seq<RawPaneModel>, i: int)
    requires
        0 <= i < panes.len(),
    ensures
        tab_order(panes, panes[i].window_id).contains(panes[i].tab_id),
    decreases panes.len(),
{
    let w = panes[i].window_id;
    let tab = panes[i].tab_id;
    let all = tab_order(panes, w);
    let front = panes.drop_last();
    let before = tab_order(front, w);
    if i < front.len() {
        assert(front[i] == panes[i]);
        lemma_tab_listed(front, i);
    }
    if before.contains(tab) {
        let k = choose|k: int| 0 <= k < before.len() && before[k] == tab;
        assert(all[k] == tab);
    } else {
        assert(all[all.len() - 1] == tab);
    }
}

/// A window has no more tabs than there are panes.
proof fn lemma_tab_count(panes: Seq<RawPaneModel>, window_id: u64)
    ensures
        tab_order(panes, window_id).len() <= panes.len(),
    decreases panes.len(),
{
    if panes.len() > 0 {
        lemma_tab_count(panes.drop_last(), window_id);
    }
}

/// A pane's tab number lies between 1 and the number of its window's tabs, and two panes of one
/// window have the same number exactly where they are in the same tab.
pub proof fn tab_numbers_tell_tabs_apart(panes: Seq<RawPaneModel>, i: int, j: int)
    requires
        0 <= i < panes.len(),
        0 <= j < panes.len(),
        panes[i].window_id == panes[j].window_id,
    ensures
        1 <= tab_number(panes, panes[i]) <= tab_order(panes, panes[i].window_id).len(),
        tab_number(panes, panes[i]) == tab_number(panes, panes[j]) <==> panes[i].tab_id
            == panes[j].tab_id,
{
    let order = tab_order(panes, panes[i].window_id);
    lemma_tab_listed(panes, i);
    lemma_tab_listed(panes, j);
    lemma_position(order, panes[i].tab_id);
    lemma_position(order, panes[j].tab_id);
}

fn holds(tabs: &[u64], tab: u64) -> (r: bool)
    ensures
        r == tabs@.contains(tab),
{
    let i = find_tab(tabs, tab);
    proof {
        lemma_position(tabs@, tab);
    }
    i < tabs.len()
}

fn find_tab(tabs: &[u64], tab: u64) -> (r: usize)
    ensures
        r == position(tabs@, tab),
        r <= tabs.len(),
{
    let mut i: usize = 0;
    while i < tabs.len() && tabs[i] != tab
        invariant
            i <= tabs.len(),
            forall|j: int| 0 <= j < i ==> tabs@[j] != tab,
        decreases tabs.len() - i,
    {
        i += 1;
    }
    proof {
        lemma_position_is(tabs@, tab, i as int);
    }
    i
}

fn tabs_in_order(panes: &[RawPane], window_id: u64) -> (r: Vec<u64>)
    ensures
        r@ == tab_order(views_of(panes@), window_id),
{
    let ghost all = views_of(panes@);
    let mut tabs: Vec<u64> = Vec::new();
    let mut i: usize = 0;
    assert(all.take(0) =~= seq![]);
    assert(tabs@ =~= seq![]);
    while i < panes.len()
        invariant
            i <= panes.len(),
            all == views_of(panes@),
            tabs@ == tab_order(all.take(i as int), window_id),
        decreases panes.len() - i,
    {
        assert(all.take(i + 1).drop_last() =~= all.take(i as int));
        assert(all.take(i + 1).last() == panes@[i as int]@);
        if panes[i].window_id == window_id && !holds(tabs.as_slice(), panes[i].tab_id) {
            tabs.push(panes[i].tab_id);
        }
        i += 1;
    }
    assert(all.take(i as int) =~= all);
    tabs
}

/// The row of the `i`-th pane, if it is an agent's.
pub open spec fn pane_row(panes: Seq<RawPaneModel>, i: int) -> Option<PaneRowModel> {
    let p = panes[i];
    match classified(p.title) {
        Some((status, name)) => Some(
            PaneRowModel {
                pane_id: p.pane_id,
                tab_id: p.tab_id,
                tab_index: tab_number(panes, p) as u64,
                status,
                name,
                cwd: shown_cwd(p.cwd),
                is_active: p.is_active,
            },
        ),
        None => None,
    }
}

/// The rows of the agent panes among the first `n`, in list order.
pub open spec fn listed_rows(panes: Seq<RawPaneModel>, n: nat) -> Seq<PaneRowModel>
    decreases n,
{
    if n == 0 {
        seq![]
    } else {
        let before = listed_rows(panes, (n - 1) as nat);
        match pane_row(panes, n - 1) {
            Some(row) => before.push(row),
            None => before,
        }
    }
}

/// The agent panes among the listed ones, sorted by pane id. Tabs are numbered over all panes,
/// agents' or not: every tab has its slot on the tab bar.
pub fn pane_rows(panes: &[RawPane]) -> (r: Vec<PaneRow>)
    ensures
        stable_sort_of::<PaneRow>(
            listed_rows(views_of(panes@), panes@.len() as nat),
            views_of(r@),
        ),
{
    let ghost all = views_of(panes@);
    let mut rows: Vec<PaneRow> = Vec::new();
    let mut i: usize = 0;
    assert(views_of(rows@) =~= seq![]);
    while i < panes.len()
        invariant
            i <= panes.len(),
            all == views_of(panes@),
            views_of(rows@) == listed_rows(all, i as nat),
        decreases panes.len() - i,
    {
        let p = &panes[i];
        assert(all[i as int] == p@);
        if let Some((status, name)) = classify_title(p.title.as_str()) {
            let tabs = tabs_in_order(panes, p.window_id);
            let k = find_tab(tabs.as_slice(), p.tab_id);
            proof {
                lemma_tab_listed(all, i as int);
                lemma_tab_count(all, p.window_id);
                lemma_position(tabs@, p.tab_id);
                assert(k < tabs@.len());
            }
            let row = PaneRow {
                pane_id: p.pane_id,
                tab_id: p.tab_id,
                tab_index: (k + 1) as u64,
                status,
                name,
                cwd: short_cwd(p.cwd.as_str()),
                is_active: p.is_active,
            };
            let ghost before = views_of(rows@);
            let ghost told = row@;
            rows.push(row);
            assert(views_of(rows@) =~= before.push(told));
        }
        i += 1;
    }
    stable_sort(rows.as_mut_slice());
    rows
}

/// How an unreadable pane list is reported.
pub fn unreadable_list(reason: &str) -> (r: AppError)
    ensures
        r matches AppError::Parse(message) && message@ == "wezterm list: "@ + reason@,
{
    let mut message = "wezterm list: ".to_owned();
    message.append(reason);
    AppError::Parse(message)
}

/// Last-good pane list: a failing lane must not blank the board's tab and pane columns.
#[derive(Debug)]
pub struct PaneCache {
    last: Vec<PaneRow>,
}

impl View for PaneCache {
    type V = Seq<PaneRowModel>;

    closed spec fn view(&self) -> Seq<PaneRowModel> {
        views_of(self.last@)
    }
}

impl Default for PaneCache {
    fn default() -> (r: Self)
        ensures
            r@ == Seq::<PaneRowModel>::empty(),
    {
        let r = PaneCache { last: Vec::new() };
        assert(r@ =~= Seq::<PaneRowModel>::empty());
        r
    }
}

/// What a pane fetch came to.
pub open spec fn fetched_panes(result: AppResult<Vec<PaneRow>>) -> Fetched<PaneRowModel> {
    match result {
        Ok(rows) => Fetched::Good(views_of(rows@)),
        Err(e) => Fetched::Failed(error_text(e)),
    }
}

fn copy_rows(rows: &Vec<PaneRow>) -> (r: Vec<PaneRow>)
    ensures
        views_of(r@) == views_of(rows@),
{
    let mut out: Vec<PaneRow> = Vec::new();
    let mut i: usize = 0;
    while i < rows.len()
        invariant
            i <= rows.len(),
            out@.len() == i,
            forall|k: int| 0 <= k < i ==> #[trigger] out@[k]@ == rows@[k]@,
        decreases rows.len() - i,
    {
        out.push(rows[i].clone());
        i += 1;
    }
    assert(views_of(out@) =~= views_of(rows@));
    out
}

impl PaneCache {
    /// Folds a fetch result into the rows to show and the lane's error. A success replaces the
    /// cache; a failure keeps the last good list and reports the error.
    pub fn fold(&mut self, result: AppResult<Vec<PaneRow>>) -> (r: (Vec<PaneRow>, Option<String>))
        ensures
            final(self)@ == last_good_after(old(self)@, fetched_panes(result)),
            views_of(r.0@) == final(self)@,
            opt_text(r.1) == lane_error(fetched_panes(result)),
    {
        match result {
            Ok(rows) => {
                self.last = copy_rows(&rows);
                (rows, None)
            },
            Err(e) => (copy_rows(&self.last), Some(e.message())),
        }
    }
}

/// A title that begins with a spinner frame is a working agent's, one that begins with the asterisk
/// an idle one's, and any other is no agent's. The name is what follows the glyph and the white
/// space behind it.
pub proof fn a_title_is_a_glyph_and_a_name(c: char, gap: Seq<char>, name: Seq<char>)
    requires
        all_white(gap),
        name.len() > 0 ==> !is_white(name[0]),
    ensures
        classified(seq![c] + gap + name) == if 0x2800 <= c as int <= 0x28ff {
            Some((PaneStatus::Working, name))
        } else if c as int == 0x2733 {
            Some((PaneStatus::Idle, name))
        } else {
            None
        },
        classified(Seq::empty()) is None,
{
    let title = seq![c] + gap + name;
    assert(title.skip(1) =~= gap + name);
    lemma_trim_start_skips(gap, name);
    assert(trim_start(name) == name);
}

/// A directory within a WSL distribution is shown as its path there, that of a local file as its
/// path, each without trailing slashes; what is no file URL is shown as it is.
pub proof fn a_directory_is_shown_as_its_path(
    distro: Seq<char>,
    path: Seq<char>,
    slashes: Seq<char>,
    other: Seq<char>,
)
    requires
        distro.len() > 0,
        !occurs(distro, '/'),
        path.len() > 0,
        path.last() != '/',
        forall|i: int| 0 <= i < slashes.len() ==> #[trigger] slashes[i] == '/',
        forall|rest: Seq<char>| other != #[trigger] ("file://"@ + rest),
    ensures
        shown_cwd("file://wsl.localhost/"@ + distro + seq!['/'] + path + slashes) == seq!['/']
            + path,
        shown_cwd("file://wsl.localhost/"@ + distro + slashes) == seq!['/'],
        shown_cwd("file:///"@ + path + slashes) == path,
        shown_cwd(other) == other,
{
    lemma_wsl_is_shown(distro, path, slashes);
    lemma_local_is_shown(path, slashes);
    lemma_other_is_shown(other);
}

#[verifier::rlimit(40)]
proof fn lemma_wsl_is_shown(distro: Seq<char>, path: Seq<char>, slashes: Seq<char>)
    requires
        distro.len() > 0,
        !occurs(distro, '/'),
        path.len() > 0,
        path.last() != '/',
        forall|i: int| 0 <= i < slashes.len() ==> #[trigger] slashes[i] == '/',
    ensures
        shown_cwd("file://wsl.localhost/"@ + distro + seq!['/'] + path + slashes) == seq!['/']
            + path,
        shown_cwd("file://wsl.localhost/"@ + distro + slashes) == seq!['/'],
{
    let wsl = "file://wsl.localhost/"@;
    let n = distro.len() as int;
    assert(distro[n - 1] != '/');
    let rest = distro + seq!['/'] + path;
    let a = wsl + rest;
    assert(wsl + distro + seq!['/'] + path + slashes =~= a + slashes);
    assert(a.last() == path.last());
    only_the_trailing_are_cut(a, '/', slashes);
    a_prefix_and_its_rest_are_the_text(a, wsl, rest);
    assert forall|j: int| 0 <= j < n implies rest[j] != '/' by {
        assert(rest[j] == distro[j]);
    }
    lemma_position_is(rest, '/', n);
    assert(rest.skip(n + 1) =~= path);
    let b = wsl + distro;
    assert(b.last() == distro[n - 1]);
    only_the_trailing_are_cut(b, '/', slashes);
    a_prefix_and_its_rest_are_the_text(b, wsl, distro);
    lemma_position_is(distro, '/', n);
}

proof fn lemma_local_is_shown(path: Seq<char>, slashes: Seq<char>)
    requires
        path.len() > 0,
        path.last() != '/',
        forall|i: int| 0 <= i < slashes.len() ==> #[trigger] slashes[i] == '/',
    ensures
        shown_cwd("file:///"@ + path + slashes) == path,
{
    let (wsl, local) = ("file://wsl.localhost/"@, "file:///"@);
    let c = local + path;
    assert(c.last() == path.last());
    only_the_trailing_are_cut(c, '/', slashes);
    a_prefix_and_its_rest_are_the_text(c, local, path);
    assert(!starts_with(c, wsl)) by {
        reveal_strlit("file://wsl.localhost/");
        reveal_strlit("file:///");
        if starts_with(c, wsl) {
            assert(c.take(wsl.len() as int)[7] == c[7]);
            assert(c[7] == '/' && wsl[7] == 'w');
        }
    }
}

proof fn lemma_other_is_shown(other: Seq<char>)
    requires
        forall|rest: Seq<char>| other != #[trigger] ("file://"@ + rest),
    ensures
        shown_cwd(other) == other,
{
    let trimmed = without_trailing(other, '/');
    lemma_cut_is_a_prefix(other, '/');
    lemma_begins_as_a_file_url(other, trimmed, "file://wsl.localhost/"@);
    lemma_begins_as_a_file_url(other, trimmed, "file:///"@);
}

proof fn lemma_begins_as_a_file_url(s: Seq<char>, front: Seq<char>, prefix: Seq<char>)
    requires
        front.len() <= s.len(),
        front == s.take(front.len() as int),
        prefix == "file://wsl.localhost/"@ || prefix == "file:///"@,
        forall|rest: Seq<char>| s != #[trigger] ("file://"@ + rest),
    ensures
        !starts_with(front, prefix),
{
    if starts_with(front, prefix) {
        reveal_strlit("file://wsl.localhost/");
        reveal_strlit("file:///");
        reveal_strlit("file://");
        assert forall|k: int| 0 <= k < 7 implies s[k] == "file://"@[k] by {
            assert(front[k] == s[k]);
            assert(front.take(prefix.len() as int)[k] == prefix[k]);
        }
        assert(s =~= "file://"@ + s.skip(7));
    }
}

proof fn lemma_cut_is_a_prefix(s: Seq<char>, x: char)
    ensures
        without_trailing(s, x).len() <= s.len(),
        without_trailing(s, x) == s.take(without_trailing(s, x).len() as int),
    decreases s.len(),
{
    if s.len() > 0 && s.last() == x {
        lemma_cut_is_a_prefix(s.drop_last(), x);
        assert(without_trailing(s, x) =~= s.take(without_trailing(s, x).len() as int));
    } else {
        assert(s =~= s.take(s.len() as int));
    }
}

/// A window's tabs are those its panes name, each once, in the order in which it is first named.
pub proof fn tabs_are_listed_as_first_named(panes: Seq<RawPaneModel>, window_id: u64, tab: u64)
    ensures
        tab_order(panes, window_id).contains(tab) <==> exists|i: int|
            #![trigger panes[i]]
            0 <= i < panes.len() && panes[i].window_id == window_id && panes[i].tab_id == tab,
        forall|a: int, b: int|
            0 <= a < b < tab_order(panes, window_id).len() ==> #[trigger] tab_order(
                panes,
                window_id,
            )[a] != #[trigger] tab_order(panes, window_id)[b],
    decreases panes.len(),
{
    let all = tab_order(panes, window_id);
    if panes.len() > 0 {
        let front = panes.drop_last();
        let before = tab_order(front, window_id);
        tabs_are_listed_as_first_named(front, window_id, tab);
        assert forall|a: int, b: int| 0 <= a < b < all.len() implies #[trigger] all[a]
            != #[trigger] all[b] by {
            if b < before.len() {
                assert(before[a] != before[b]);
            } else {
                assert(before.contains(before[a]));
            }
        }
        if all.contains(tab) {
            let k = choose|k: int| 0 <= k < all.len() && all[k] == tab;
            if k < before.len() {
                assert(before[k] == tab);
                assert(before.contains(tab));
                let i = choose|i: int|
                    #![trigger front[i]]
                    0 <= i < front.len() && front[i].window_id == window_id && front[i].tab_id
                        == tab;
                assert(panes[i] == front[i]);
            } else {
                assert(panes[panes.len() - 1] == panes.last());
            }
        }
        if exists|i: int|
            #![trigger panes[i]]
            0 <= i < panes.len() && panes[i].window_id == window_id && panes[i].tab_id == tab {
            let i = choose|i: int|
                #![trigger panes[i]]
                0 <= i < panes.len() && panes[i].window_id == window_id && panes[i].tab_id == tab;
            lemma_tab_listed(panes, i);
        }
    }
}

/// Of two tabs of a window, the one that a pane names before any pane names the other has the
/// lower number.
pub proof fn tabs_are_numbered_as_they_come(panes: Seq<RawPaneModel>, i: int, j: int)
    requires
        0 <= i < j < panes.len(),
        panes[i].window_id == panes[j].window_id,
        forall|k: int|
            0 <= k <= i && (#[trigger] panes[k]).window_id == panes[j].window_id
                ==> panes[k].tab_id != panes[j].tab_id,
    ensures
        tab_number(panes, panes[i]) < tab_number(panes, panes[j]),
{
    let w = panes[i].window_id;
    let (first, second) = (panes[i].tab_id, panes[j].tab_id);
    let early = panes.take(i + 1);
    assert(early[i] == panes[i]);
    lemma_tab_listed(early, i);
    tabs_are_listed_as_first_named(early, w, second);
    assert(!tab_order(early, w).contains(second)) by {
        if tab_order(early, w).contains(second) {
            let k = choose|k: int|
                #![trigger early[k]]
                0 <= k < early.len() && early[k].window_id == w && early[k].tab_id == second;
            assert(panes[k] == early[k]);
        }
    }
    lemma_later_panes_only_add(panes, w, i + 1);
    lemma_tab_listed(panes, i);
    lemma_tab_listed(panes, j);
    let all = tab_order(panes, w);
    let n = tab_order(early, w).len();
    lemma_position(all, first);
    lemma_position(all, second);
    let a = choose|a: int| 0 <= a < n && tab_order(early, w)[a] == first;
    assert(all[a] == first);
    let b = position(all, second) as int;
    if b < n {
        assert(all[b] == tab_order(early, w)[b]);
        assert(tab_order(early, w).contains(second));
    }
}

proof fn lemma_later_panes_only_add(panes: Seq<RawPaneModel>, window_id: u64, n: int)
    requires
        0 <= n <= panes.len(),
    ensures
        ({
            let early = tab_order(panes.take(n), window_id);
            let all = tab_order(panes, window_id);
            &&& early.len() <= all.len()
            &&& forall|k: int| 0 <= k < early.len() ==> #[trigger] all[k] == early[k]
        }),
    decreases panes.len(),
{
    if n == panes.len() {
        assert(panes.take(n) =~= panes);
    } else {
        let front = panes.drop_last();
        lemma_later_panes_only_add(front, window_id, n);
        assert(front.take(n) =~= panes.take(n));
        let (early, before, all) = (
            tab_order(panes.take(n), window_id),
            tab_order(front, window_id),
            tab_order(panes, window_id),
        );
        assert forall|k: int| 0 <= k < early.len() implies #[trigger] all[k] == early[k] by {
            assert(before[k] == early[k]);
        }
    }
}

/// Every agent's pane has its row, with its own ids, its tab's number, what its title tells, its
/// directory as shown, and whether it is active; no other pane has one, and the rows are in the
/// order of the pane ids.
#[verifier::rlimit(40)]
pub proof fn each_agent_pane_has_its_row(panes: Seq<RawPaneModel>, rows: Seq<PaneRowModel>)
    requires
        stable_sort_of::<PaneRow>(listed_rows(panes, panes.len()), rows),
    ensures
        forall|i: int|
            #![trigger panes[i]]
            0 <= i < panes.len() && classified(panes[i].title) is Some ==> exists|k: int|
                #![trigger rows[k]]
                0 <= k < rows.len() && rows[k].pane_id == panes[i].pane_id && rows[k].tab_id
                    == panes[i].tab_id && rows[k].tab_index == tab_number(panes, panes[i]) as u64
                    && classified(panes[i].title) == Some((rows[k].status, rows[k].name))
                    && rows[k].cwd == shown_cwd(panes[i].cwd) && rows[k].is_active
                    == panes[i].is_active,
        forall|k: int|
            #![trigger rows[k]]
            0 <= k < rows.len() ==> exists|i: int|
                #![trigger panes[i]]
                0 <= i < panes.len() && rows[k].pane_id == panes[i].pane_id && rows[k].tab_id
                    == panes[i].tab_id && rows[k].tab_index == tab_number(panes, panes[i]) as u64
                    && classified(panes[i].title) == Some((rows[k].status, rows[k].name))
                    && rows[k].cwd == shown_cwd(panes[i].cwd) && rows[k].is_active
                    == panes[i].is_active,
        forall|k: int, l: int|
            0 <= k < l < rows.len() ==> (#[trigger] rows[k]).pane_id <= (
            #[trigger] rows[l]).pane_id,
{
    let listed = listed_rows(panes, panes.len());
    a_sorted_list_holds_the_same::<PaneRow>(listed, rows);
    assert forall|i: int|
        #![trigger panes[i]]
        0 <= i < panes.len() && classified(panes[i].title) is Some implies exists|k: int|
        #![trigger rows[k]]
        0 <= k < rows.len() && is_row_of(rows[k], panes, i) by {
        let m = lemma_listed_pane(panes, panes.len(), i);
        assert(rows.contains(listed[m]));
        let k = choose|k: int| 0 <= k < rows.len() && rows[k] == listed[m];
        assert(is_row_of(rows[k], panes, i));
    }
    assert forall|k: int|
        #![trigger rows[k]]
        0 <= k < rows.len() implies exists|i: int|
        #![trigger panes[i]]
        0 <= i < panes.len() && is_row_of(rows[k], panes, i) by {
        assert(listed.contains(rows[k]));
        let m = choose|m: int| 0 <= m < listed.len() && listed[m] == rows[k];
        let i = lemma_row_is_of_a_pane(panes, panes.len(), m);
        assert(is_row_of(rows[k], panes, i));
        assert(panes[i] == panes[i]);
    }
    assert forall|k: int, l: int| 0 <= k < l < rows.len() implies (#[trigger] rows[k]).pane_id <= (
    #[trigger] rows[l]).pane_id by {
        assert(PaneRow::le(rows[k], rows[l]));
    }
}

/// `row` tells of the `i`-th pane, which is an agent's.
spec fn is_row_of(row: PaneRowModel, panes: Seq<RawPaneModel>, i: int) -> bool {
    &&& row.pane_id == panes[i].pane_id
    &&& row.tab_id == panes[i].tab_id
    &&& row.tab_index == tab_number(panes, panes[i]) as u64
    &&& classified(panes[i].title) == Some((row.status, row.name))
    &&& row.cwd == shown_cwd(panes[i].cwd)
    &&& row.is_active == panes[i].is_active
}

proof fn lemma_listed_pane(panes: Seq<RawPaneModel>, n: nat, i: int) -> (m: int)
    requires
        0 <= i < n <= panes.len(),
        classified(panes[i].title) is Some,
    ensures
        0 <= m < listed_rows(panes, n).len(),
        is_row_of(listed_rows(panes, n)[m], panes, i),
    decreases n,
{
    let all = listed_rows(panes, n);
    let before = listed_rows(panes, (n - 1) as nat);
    if i == n - 1 {
        all.len() - 1
    } else {
        let m = lemma_listed_pane(panes, (n - 1) as nat, i);
        assert(all[m] == before[m]);
        m
    }
}

proof fn lemma_row_is_of_a_pane(panes: Seq<RawPaneModel>, n: nat, m: int) -> (i: int)
    requires
        n <= panes.len(),
        0 <= m < listed_rows(panes, n).len(),
    ensures
        0 <= i < n,
        is_row_of(listed_rows(panes, n)[m], panes, i),
    decreases n,
{
    let before = listed_rows(panes, (n - 1) as nat);
    if m < before.len() {
        lemma_row_is_of_a_pane(panes, (n - 1) as nat, m)
    } else {
        n - 1
    }
}

/// The binary that the path finds is run by its plain name; otherwise the installed one is, where
/// it is there.
pub proof fn the_path_comes_first(absolute: Seq<char>)
    ensures
        wezterm_program(true, true, absolute) == "wezterm.exe"@,
        wezterm_program(true, false, absolute) == "wezterm.exe"@,
        wezterm_program(false, true, absolute) == absolute,
        wezterm_program(false, false, absolute) == "wezterm.exe"@,
{
}

/// A model of a pane or of its row holds each field of it, and a fetch is good exactly where it
/// succeeded.
pub proof fn pane_models_hold_every_field(
    row: PaneRow,
    pane: RawPane,
    result: AppResult<Vec<PaneRow>>,
)
    ensures
        row@.pane_id == row.pane_id,
        row@.tab_id == row.tab_id,
        row@.tab_index == row.tab_index,
        row@.status == row.status,
        row@.name == row.name@,
        row@.cwd == row.cwd@,
        row@.is_active == row.is_active,
        pane@.pane_id == pane.pane_id,
        pane@.tab_id == pane.tab_id,
        pane@.window_id == pane.window_id,
        pane@.title == pane.title@,
        pane@.cwd == pane.cwd@,
        pane@.is_active == pane.is_active,
        match result {
            Ok(rows) => fetched_panes(result) == Fetched::Good(views_of(rows@)),
            Err(e) => fetched_panes(result) == Fetched::<PaneRowModel>::Failed(error_text(e)),
        },
{
}

} // verus!
