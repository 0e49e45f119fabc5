//! The cmux lane: terminal topology and jump, through cmux's AppleScript interface.
//!
//! The surface id is passed as `osascript` argv, never interpolated into the script, so a
//! hostile id is inert data rather than code. `character id 9` is bound outside the `tell`
//! block: cmux's dictionary defines a `tab` class, which shadows AppleScript's tab constant.

use vstd::prelude::*;
use crate::decode::{
    borrowed_lines, lines_decode_independently, lossy_lines, lossy_lines_of, whole_lines,
};
use crate::error::{error_text, AppResult};
use crate::lastgood::{lane_error, last_good_after, Fetched};
use crate::number::{
    decimal, decimal_reads_back, is_digit, lemma_decimal_digits, parse_u32, parsed_u32,
};
use crate::order::views_of;
use crate::runner::{command, owned, plain_command, CommandModel, CommandSpec};
use crate::text::{
    all_white, chars_of, is_white, lemma_lines_of_sum, lines, lines_of, lossy_text, occurs,
    opt_text, split, split_of, splitting_parts_at_the_first, string_of, texts, trim, trim_of,
    trimming_cuts_white_ends, utf8_lossy, views,
};

verus! {

/// One cmux terminal: a "surface" in cmux's window, workspace (tab), pane, surface model.
#[derive(Debug, PartialEq, Eq)]
pub struct Surface {
    /// The surface UUID, as exported into the terminal's environment: what makes process to
    /// surface an exact join.
    pub id: String,
    /// 1-based window position.
    pub window_index: u32,
    /// 1-based tab (workspace) position within its window.
    pub tab_index: u32,
    /// The workspace name, without a status glyph.
    pub name: String,
    /// The terminal's working directory.
    pub cwd: String,
}

/// What a `Surface` stands for.
pub struct SurfaceModel {
    pub id: Seq<char>,
    pub window_index: u32,
    pub tab_index: u32,
    pub name: Seq<char>,
    pub cwd: Seq<char>,
}

impl View for Surface {
    type V = SurfaceModel;

    open spec fn view(&self) -> SurfaceModel {
        SurfaceModel {
            id: self.id@,
            window_index: self.window_index,
            tab_index: self.tab_index,
            name: self.name@,
            cwd: self.cwd@,
        }
    }
}

impl Clone for Surface {
    fn clone(&self) -> (r: Self)
        ensures
            r@ == self@,
    {
        Surface {
            id: self.id.clone(),
            window_index: self.window_index,
            tab_index: self.tab_index,
            name: self.name.clone(),
            cwd: self.cwd.clone(),
        }
    }
}

/// Emits one tab-separated row per terminal: id, window number, tab number, tab name, working
/// directory.
pub const LIST_SCRIPT: &'static str = r#"set d to character id 9
set out to ""
tell application "cmux"
  set wi to 0
  repeat with w in windows
    set wi to wi + 1
    set ti to 0
    repeat with t in tabs of w
      set ti to ti + 1
      repeat with tm in terminals of t
        set out to out & (id of tm) & d & wi & d & ti & d & (name of t) & d & (working directory of tm) & linefeed
      end repeat
    end repeat
  end repeat
end tell
return out"#;

/// Focuses the surface whose id is the script's first argument. An unknown id is not an error:
/// the surface may have closed since.
pub const FOCUS_SCRIPT: &'static str = r#"on run argv
set target to item 1 of argv
tell application "cmux"
  repeat with w in windows
    repeat with t in tabs of w
      repeat with tm in terminals of t
        if (id of tm) is target then
          focus tm
          return "ok"
        end if
      end repeat
    end repeat
  end repeat
end tell
return "notfound"
end run"#;

/// The id of the surface the user is looking at, or empty.
pub const FOCUSED_SCRIPT: &'static str = r#"tell application "cmux"
  try
    return id of (focused terminal of (selected tab of (front window)))
  on error
    return ""
  end try
end tell"#;

/// The focused-surface call.
pub fn focused_spec() -> (r: CommandSpec)
    ensures
        r@ == plain_command("osascript"@, seq!["-e"@, FOCUSED_SCRIPT@]),
{
    let args = owned(&["-e", FOCUSED_SCRIPT]);
    assert(texts(args@) =~= seq!["-e"@, FOCUSED_SCRIPT@]);
    command("osascript", args)
}

/// The topology call.
pub fn list_spec() -> (r: CommandSpec)
    ensures
        r@ == plain_command("osascript"@, seq!["-e"@, LIST_SCRIPT@]),
{
    let args = owned(&["-e", LIST_SCRIPT]);
    assert(texts(args@) =~= seq!["-e"@, LIST_SCRIPT@]);
    command("osascript", args)
}

/// The jump call for a surface id: the id is an argument of its own.
pub open spec fn focus_command(surface_id: Seq<char>) -> CommandModel {
    plain_command("osascript"@, seq!["-e"@, FOCUS_SCRIPT@, surface_id])
}

/// The jump call. `surface_id` rides in as argv, so it is data and can never be script.
pub fn focus_spec(surface_id: &str) -> (r: CommandSpec)
    ensures
        r@ == focus_command(surface_id@),
{
    let args = owned(&["-e", FOCUS_SCRIPT, surface_id]);
    assert(texts(args@) =~= seq!["-e"@, FOCUS_SCRIPT@, surface_id@]);
    command("osascript", args)
}

/// Whatever the ids, two jumps run the same script by the same command line but for the last
/// argument, which is the id.
pub proof fn the_id_is_never_script(a: Seq<char>, b: Seq<char>)
    ensures
        focus_command(a).args.last() == a,
        focus_command(a).args.drop_last() == focus_command(b).args.drop_last(),
        focus_command(a).program == focus_command(b).program,
        focus_command(a).env == focus_command(b).env,
{
    assert(focus_command(a).args.drop_last() =~= seq!["-e"@, FOCUS_SCRIPT@]);
    assert(focus_command(b).args.drop_last() =~= seq!["-e"@, FOCUS_SCRIPT@]);
}

/// Whether `c` is an agent's status glyph: a braille spinner frame, or the idle asterisk.
pub open spec fn is_status_glyph(c: char) -> bool {
    '\u{2800}' <= c <= '\u{28ff}' || c == '\u{2733}'
}

/// Whether `c` is an agent's status glyph.
pub fn status_glyph(c: char) -> (r: bool)
    ensures
        r == is_status_glyph(c),
{
    ('\u{2800}' <= c && c <= '\u{28ff}') || c == '\u{2733}'
}

/// A workspace name without the status glyph it may begin with, trimmed.
pub open spec fn plain_name(name: Seq<char>) -> Seq<char> {
    trim(
        if name.len() > 0 && is_status_glyph(name[0]) {
            name.skip(1)
        } else {
            name
        },
    )
}

fn plain_name_of(name: &[char]) -> (r: String)
    ensures
        r@ == plain_name(name@),
{
    if name.len() > 0 && status_glyph(name[0]) {
        assert(name@.subrange(1, name@.len() as int) =~= name@.skip(1));
        string_of(trim_of(vstd::slice::slice_subrange(name, 1, name.len())))
    } else {
        string_of(trim_of(name))
    }
}

/// Drops a leading agent status glyph from a workspace name. The glyph is status, which the
/// status column already renders.
pub fn strip_status_glyph(name: &str) -> (r: String)
    ensures
        r@ == plain_name(name@),
{
    plain_name_of(chars_of(name).as_slice())
}

/// The `i`-th field, empty where there is none.
pub open spec fn field(fields: Seq<Seq<char>>, i: int) -> Seq<char> {
    if i < fields.len() {
        fields[i]
    } else {
        seq![]
    }
}

/// The surface that one topology row tells of: an id, two positions, and, as far as they are
/// there, a name and a directory; `None` for any other row.
pub open spec fn surface_row(line: Seq<char>) -> Option<SurfaceModel> {
    let fields = split(line, '\t');
    let id = trim(fields[0]);
    if fields.len() < 3 || id.len() == 0 {
        None
    } else {
        match (parsed_u32(trim(fields[1])), parsed_u32(trim(fields[2]))) {
            (Some(window_index), Some(tab_index)) => Some(
                SurfaceModel {
                    id,
                    window_index,
                    tab_index,
                    name: plain_name(field(fields, 3)),
                    cwd: trim(field(fields, 4)),
                },
            ),
            _ => None,
        }
    }
}

/// The surfaces that topology rows tell of, in order.
pub open spec fn surfaces_of_lines(lines: Seq<Seq<char>>) -> Seq<SurfaceModel>
    decreases lines.len(),
{
    if lines.len() == 0 {
        seq![]
    } else {
        let before = surfaces_of_lines(lines.drop_last());
        match surface_row(lines.last()) {
            Some(surface) => before.push(surface),
            None => before,
        }
    }
}

/// The surfaces in the given topology.
pub open spec fn surfaces_in(text: Seq<char>) -> Seq<SurfaceModel> {
    surfaces_of_lines(lines(text))
}

fn parse_row(line: &[char]) -> (r: Option<Surface>)
    ensures
        match r {
            Some(s) => surface_row(line@) == Some(s@),
            None => surface_row(line@) is None,
        },
{
    let fields = split_of(line, '\t');
    let ghost all = split(line@, '\t');
    assert(all == views(fields@));
    if fields.len() < 3 {
        return None;
    }
    assert(all[0] == fields@[0]@ && all[1] == fields@[1]@ && all[2] == fields@[2]@);
    let id = trim_of(fields[0]);
    let window = parse_u32(trim_of(fields[1]));
    let tab = parse_u32(trim_of(fields[2]));
    if id.len() == 0 {
        return None;
    }
    match (window, tab) {
        (Some(window_index), Some(tab_index)) => {
            let name = if fields.len() > 3 {
                assert(all[3] == fields@[3]@);
                plain_name_of(fields[3])
            } else {
                plain_name_of(Vec::<char>::new().as_slice())
            };
            let cwd = if fields.len() > 4 {
                assert(all[4] == fields@[4]@);
                string_of(trim_of(fields[4]))
            } else {
                string_of(trim_of(Vec::<char>::new().as_slice()))
            };
            Some(Surface { id: string_of(id), window_index, tab_index, name, cwd })
        },
        _ => None,
    }
}

fn parse_rows(all: &[&[char]]) -> (r: Vec<Surface>)
    ensures
        views_of(r@) == surfaces_of_lines(views(all@)),
{
    let ghost rows = views(all@);
    let mut out: Vec<Surface> = Vec::new();
    let mut i: usize = 0;
    assert(rows.take(0) =~= seq![]);
    assert(views_of(out@) =~= seq![]);
    while i < all.len()
        invariant
            i <= all.len(),
            rows == views(all@),
            views_of(out@) == surfaces_of_lines(rows.take(i as int)),
        decreases all.len() - i,
    {
        assert(rows.take(i + 1).drop_last() =~= rows.take(i as int));
        assert(rows.take(i + 1).last() == all@[i as int]@);
        let ghost before = views_of(out@);
        if let Some(surface) = parse_row(all[i]) {
            let ghost told = surface@;
            out.push(surface);
            assert(views_of(out@) =~= before.push(told));
        }
        i += 1;
    }
    assert(rows.take(i as int) =~= rows);
    out
}

/// Parses the tab-separated topology. Malformed rows are skipped, never fatal.
pub fn parse_list_text(text: &str) -> (r: Vec<Surface>)
    ensures
        views_of(r@) == surfaces_in(text@),
{
    let chars = chars_of(text);
    parse_rows(lines_of(chars.as_slice()).as_slice())
}

/// The surfaces in the topology call's output.
pub open spec fn surfaces_in_bytes(bytes: Seq<u8>) -> Seq<SurfaceModel> {
    surfaces_of_lines(lossy_lines(bytes))
}

/// Parses the topology call's output. A drifted cmux costs the pane column, not the board.
pub fn parse_list(bytes: &[u8]) -> (r: Vec<Surface>)
    ensures
        views_of(r@) == surfaces_in_bytes(bytes@),
        vstd::utf8::valid_utf8(bytes@) ==> views_of(r@) == surfaces_in(
            vstd::utf8::decode_utf8(bytes@),
        ),
{
    let decoded = lossy_lines_of(bytes);
    parse_rows(borrowed_lines(&decoded).as_slice())
}

/// The rows of two listings in a row are the rows of each.
proof fn lemma_surfaces_of_sum(a: Seq<Seq<char>>, b: Seq<Seq<char>>)
    ensures
        surfaces_of_lines(a + b) == surfaces_of_lines(a) + surfaces_of_lines(b),
    decreases b.len(),
{
    if b.len() == 0 {
        assert(a + b =~= a);
        assert(surfaces_of_lines(a) + surfaces_of_lines(b) =~= surfaces_of_lines(a));
    } else {
        lemma_surfaces_of_sum(a, b.drop_last());
        assert((a + b).drop_last() =~= a + b.drop_last());
        assert(surfaces_of_lines(a + b) =~= surfaces_of_lines(a) + surfaces_of_lines(b));
    }
}

/// Topology rows are read independently and in order: after whole lines, whatever bytes they
/// hold, what follows is read as it would be alone. A bad row costs only itself.
pub proof fn rows_are_read_independently(a: Seq<u8>, b: Seq<u8>)
    requires
        whole_lines(a),
    ensures
        surfaces_in_bytes(a + b) == surfaces_in_bytes(a) + surfaces_in_bytes(b),
{
    lines_decode_independently(a, b);
    lemma_surfaces_of_sum(lossy_lines(a), lossy_lines(b));
}

/// The same of the topology as text.
pub proof fn text_rows_are_read_independently(a: Seq<char>, b: Seq<char>)
    requires
        a.len() == 0 || a.last() == '\n',
    ensures
        surfaces_in(a + b) == surfaces_in(a) + surfaces_in(b),
{
    lemma_lines_of_sum(a, b, '\n', '\r');
    lemma_surfaces_of_sum(lines(a), lines(b));
}

/// The surface id in the focused-surface call's answer; `None` where nothing is focused.
pub open spec fn focused_in(answer: Seq<char>) -> Option<Seq<char>> {
    if trim(answer).len() == 0 {
        None
    } else {
        Some(trim(answer))
    }
}

/// Reads the focused-surface call's answer.
pub fn focused_id_text(answer: &str) -> (r: Option<String>)
    ensures
        opt_text(r) == focused_in(answer@),
{
    let chars = chars_of(answer);
    let id = trim_of(chars.as_slice());
    if id.len() == 0 {
        None
    } else {
        Some(string_of(id))
    }
}

/// Reads the focused-surface call's output; a failed call means that nothing is focused.
pub fn focused_id(output: AppResult<Vec<u8>>) -> (r: Option<String>)
    ensures
        match output {
            Ok(bytes) => opt_text(r) == focused_in(utf8_lossy(bytes@)) && (
            vstd::utf8::valid_utf8(bytes@) ==> opt_text(r) == focused_in(
                vstd::utf8::decode_utf8(bytes@),
            )),
            Err(_) => r is None,
        },
{
    match output {
        Ok(bytes) => {
            let answer = lossy_text(bytes.as_slice());
            focused_id_text(answer.as_str())
        },
        Err(_) => None,
    }
}

/// Last-good topology across sweeps: a transient failure must not blank the pane column.
#[derive(Debug)]
pub struct SurfaceCache {
    last_good: Vec<Surface>,
}

impl View for SurfaceCache {
    type V = Seq<SurfaceModel>;

    closed spec fn view(&self) -> Seq<SurfaceModel> {
        views_of(self.last_good@)
    }
}

impl Default for SurfaceCache {
    fn default() -> (r: Self)
        ensures
            r@ == Seq::<SurfaceModel>::empty(),
    {
        let r = SurfaceCache { last_good: Vec::new() };
        assert(r@ =~= Seq::<SurfaceModel>::empty());
        r
    }
}

/// What a topology fetch came to.
pub open spec fn fetched_surfaces(result: AppResult<Vec<Surface>>) -> Fetched<SurfaceModel> {
    match result {
        Ok(surfaces) => Fetched::Good(views_of(surfaces@)),
        Err(e) => Fetched::Failed(error_text(e)),
    }
}

/// A copy of the given surfaces.
fn copy_surfaces(surfaces: &Vec<Surface>) -> (r: Vec<Surface>)
    ensures
        views_of(r@) == views_of(surfaces@),
{
    let mut out: Vec<Surface> = Vec::new();
    let mut i: usize = 0;
    while i < surfaces.len()
        invariant
            i <= surfaces.len(),
            out@.len() == i,
            forall|k: int| 0 <= k < i ==> #[trigger] out@[k]@ == surfaces@[k]@,
        decreases surfaces.len() - i,
    {
        out.push(surfaces[i].clone());
        i += 1;
    }
    assert(views_of(out@) =~= views_of(surfaces@));
    out
}

impl SurfaceCache {
    /// Folds a fetch result into the surfaces to show and the lane's error. A success replaces
    /// the cache; a failure keeps the last good list and reports the error.
    pub fn fold(&mut self, result: AppResult<Vec<Surface>>) -> (r: (Vec<Surface>, Option<String>))
        ensures
            final(self)@ == last_good_after(old(self)@, fetched_surfaces(result)),
            views_of(r.0@) == final(self)@,
            opt_text(r.1) == lane_error(fetched_surfaces(result)),
    {
        match result {
            Ok(surfaces) => {
                self.last_good = copy_surfaces(&surfaces);
                (surfaces, None)
            },
            Err(e) => (copy_surfaces(&self.last_good), Some(e.message())),
        }
    }
}

/// A malformed row makes no difference, wherever it stands: it is skipped, and the rest is read.
pub proof fn malformed_rows_make_no_difference(
    before: Seq<Seq<char>>,
    row: Seq<char>,
    after: Seq<Seq<char>>,
)
    requires
        surface_row(row) is None,
    ensures
        surfaces_of_lines(before.push(row) + after) == surfaces_of_lines(before + after),
    decreases after.len(),
{
    let (a, b) = (before.push(row) + after, before + after);
    if after.len() == 0 {
        assert(a.drop_last() =~= before);
        assert(b =~= before);
    } else {
        malformed_rows_make_no_difference(before, row, after.drop_last());
        assert(a.drop_last() =~= before.push(row) + after.drop_last());
        assert(b.drop_last() =~= before + after.drop_last());
    }
}

proof fn lemma_padded_has_no_tab(pad: Seq<char>, s: Seq<char>)
    requires
        !occurs(pad, '\t'),
        !occurs(s, '\t'),
    ensures
        !occurs(pad + s + pad, '\t'),
{
    let all = pad + s + pad;
    if occurs(all, '\t') {
        let i = choose|i: int| 0 <= i < all.len() && #[trigger] all[i] == '\t';
        if i < pad.len() {
            assert(pad[i] == '\t');
        } else if i < pad.len() + s.len() {
            assert(s[i - pad.len()] == '\t');
        } else {
            assert(pad[i - pad.len() - s.len()] == '\t');
        }
    }
}

proof fn lemma_padded_number(pad: Seq<char>, n: u32)
    requires
        all_white(pad),
        !occurs(pad, '\t'),
    ensures
        parsed_u32(trim(pad + decimal(n as nat) + pad)) == Some(n),
        !occurs(pad + decimal(n as nat) + pad, '\t'),
{
    let number = decimal(n as nat);
    lemma_decimal_digits(n as nat);
    decimal_reads_back(n);
    assert(is_digit(number[0]) && is_digit(number[number.len() - 1]));
    trimming_cuts_white_ends(pad, number, pad);
    assert(!occurs(number, '\t')) by {
        if occurs(number, '\t') {
            let i = choose|i: int| 0 <= i < number.len() && #[trigger] number[i] == '\t';
            assert(is_digit(number[i]));
        }
    }
    lemma_padded_has_no_tab(pad, number);
}

/// A topology row tells an id, a window, a tab, a name and a directory, in this order, whatever
/// white space pads them; what follows a further tab is not read, and a row may lack the directory,
/// or it and the name.
#[verifier::rlimit(40)]
pub proof fn a_topology_row_reads_back(
    pad: Seq<char>,
    id: Seq<char>,
    window: u32,
    tab: u32,
    name: Seq<char>,
    cwd: Seq<char>,
    more: Seq<char>,
)
    requires
        all_white(pad),
        !occurs(pad, '\t'),
        id.len() > 0,
        !is_white(id[0]) && !is_white(id.last()) && !occurs(id, '\t'),
        name.len() > 0 ==> !is_white(name[0]) && !is_white(name.last()),
        name.len() > 0 ==> !is_status_glyph(name[0]),
        !occurs(name, '\t'),
        cwd.len() > 0 ==> !is_white(cwd[0]) && !is_white(cwd.last()),
        !occurs(cwd, '\t'),
    ensures
        ({
            let sep = seq!['\t'];
            let start = (pad + id + pad) + sep + ((pad + decimal(window as nat) + pad) + sep + (pad
                + decimal(tab as nat) + pad));
            let whole = (pad + id + pad) + sep + ((pad + decimal(window as nat) + pad) + sep + ((pad
                + decimal(tab as nat) + pad) + sep + ((pad + name + pad) + sep + (pad + cwd
                + pad))));
            let longer = (pad + id + pad) + sep + ((pad + decimal(window as nat) + pad) + sep + ((
            pad + decimal(tab as nat) + pad) + sep + ((pad + name + pad) + sep + ((pad + cwd + pad)
                + sep + more))));
            let named = (pad + id + pad) + sep + ((pad + decimal(window as nat) + pad) + sep + ((pad
                + decimal(tab as nat) + pad) + sep + (pad + name + pad)));
            let none = Seq::<char>::empty();
            &&& surface_row(whole) == Some(
                SurfaceModel { id, window_index: window, tab_index: tab, name, cwd },
            )
            &&& surface_row(longer) == surface_row(whole)
            &&& surface_row(named) == Some(
                SurfaceModel { id, window_index: window, tab_index: tab, name, cwd: none },
            )
            &&& surface_row(start) == Some(
                SurfaceModel { id, window_index: window, tab_index: tab, name: none, cwd: none },
            )
        }),
{
    let none = Seq::<char>::empty();
    let (i, w, t, n, c) = (
        pad + id + pad,
        pad + decimal(window as nat) + pad,
        pad + decimal(tab as nat) + pad,
        pad + name + pad,
        pad + cwd + pad,
    );
    let sep = seq!['\t'];
    lemma_padded_has_no_tab(pad, id);
    lemma_padded_number(pad, window);
    lemma_padded_number(pad, tab);
    lemma_padded_has_no_tab(pad, name);
    lemma_padded_has_no_tab(pad, cwd);
    trimming_cuts_white_ends(pad, id, pad);
    trimming_cuts_white_ends(pad, name, pad);
    trimming_cuts_white_ends(pad, cwd, pad);
    trimming_cuts_white_ends(none, none, none);
    assert(none + none + none =~= none);
    assert(plain_name(none) == none);
    assert(plain_name(n) == name) by {
        if n.len() > 0 {
            if pad.len() > 0 {
                assert(n[0] == pad[0]);
                assert(is_white(pad[0]));
            } else {
                assert(n[0] == name[0]);
            }
        }
    }
    lemma_split_pieces(i, w, t, n, c, more);
    lemma_row_of_fields(i + sep + (w + sep + t), seq![i, w, t]);
    lemma_row_of_fields(i + sep + (w + sep + (t + sep + n)), seq![i, w, t, n]);
    lemma_row_of_fields(i + sep + (w + sep + (t + sep + (n + sep + c))), seq![i, w, t, n, c]);
    let tail5 = c + sep + more;
    lemma_row_of_fields(
        i + sep + (w + sep + (t + sep + (n + sep + tail5))),
        seq![i, w, t, n, c] + split(more, '\t'),
    );
}

/// What a row with these fields tells.
proof fn lemma_row_of_fields(line: Seq<char>, fields: Seq<Seq<char>>)
    requires
        split(line, '\t') == fields,
        fields.len() >= 3,
        trim(fields[0]).len() > 0,
        parsed_u32(trim(fields[1])) is Some,
        parsed_u32(trim(fields[2])) is Some,
    ensures
        surface_row(line) == Some(
            SurfaceModel {
                id: trim(fields[0]),
                window_index: parsed_u32(trim(fields[1]))->0,
                tab_index: parsed_u32(trim(fields[2]))->0,
                name: plain_name(field(fields, 3)),
                cwd: trim(field(fields, 4)),
            },
        ),
{
}

#[verifier::rlimit(40)]
proof fn lemma_split_pieces(
    i: Seq<char>,
    w: Seq<char>,
    t: Seq<char>,
    n: Seq<char>,
    c: Seq<char>,
    more: Seq<char>,
)
    requires
        !occurs(i, '\t'),
        !occurs(w, '\t'),
        !occurs(t, '\t'),
        !occurs(n, '\t'),
        !occurs(c, '\t'),
    ensures
        ({
            let sep = seq!['\t'];
            &&& split(i + sep + (w + sep + t), '\t') == seq![i, w, t]
            &&& split(i + sep + (w + sep + (t + sep + n)), '\t') == seq![i, w, t, n]
            &&& split(i + sep + (w + sep + (t + sep + (n + sep + c))), '\t') == seq![i, w, t, n, c]
            &&& split(i + sep + (w + sep + (t + sep + (n + sep + (c + sep + more)))), '\t') == seq![
                i,
                w,
                t,
                n,
                c,
            ] + split(more, '\t')
        }),
{
    lemma_split_three(i, w, t);
    lemma_split_on(i, w, t, n);
    lemma_split_on(i, w, t, n + seq!['\t'] + c);
    lemma_split_on(i, w, t, n + seq!['\t'] + (c + seq!['\t'] + more));
    splitting_parts_at_the_first(n, '\t', c);
    splitting_parts_at_the_first(n, '\t', c + seq!['\t'] + more);
    splitting_parts_at_the_first(c, '\t', more);
    assert(seq![i, w, t] + seq![n] =~= seq![i, w, t, n]);
    assert(seq![i, w, t] + (seq![n] + seq![c]) =~= seq![i, w, t, n, c]);
    assert(seq![i, w, t] + (seq![n] + (seq![c] + split(more, '\t'))) =~= seq![i, w, t, n, c]
        + split(more, '\t'));
}

proof fn lemma_split_three(i: Seq<char>, w: Seq<char>, t: Seq<char>)
    requires
        !occurs(i, '\t'),
        !occurs(w, '\t'),
        !occurs(t, '\t'),
    ensures
        split(i + seq!['\t'] + (w + seq!['\t'] + t), '\t') == seq![i, w, t],
{
    splitting_parts_at_the_first(i, '\t', w + seq!['\t'] + t);
    splitting_parts_at_the_first(w, '\t', t);
    splitting_parts_at_the_first(t, '\t', t);
    assert(seq![i] + (seq![w] + seq![t]) =~= seq![i, w, t]);
}

proof fn lemma_split_on(i: Seq<char>, w: Seq<char>, t: Seq<char>, rest: Seq<char>)
    requires
        !occurs(i, '\t'),
        !occurs(w, '\t'),
        !occurs(t, '\t'),
    ensures
        split(i + seq!['\t'] + (w + seq!['\t'] + (t + seq!['\t'] + rest)), '\t') == seq![i, w, t]
            + split(rest, '\t'),
{
    splitting_parts_at_the_first(i, '\t', w + seq!['\t'] + (t + seq!['\t'] + rest));
    splitting_parts_at_the_first(w, '\t', t + seq!['\t'] + rest);
    splitting_parts_at_the_first(t, '\t', rest);
    assert(seq![i] + (seq![w] + (seq![t] + split(rest, '\t'))) =~= seq![i, w, t] + split(
        rest,
        '\t',
    ));
}

/// A row without two positions, with a blank id, or with a position that is no number tells of no
/// surface.
#[verifier::rlimit(40)]
pub proof fn an_unreadable_row_tells_nothing(
    first: Seq<char>,
    second: Seq<char>,
    third: Seq<char>,
    more: Seq<char>,
)
    requires
        !occurs(first, '\t'),
        !occurs(second, '\t'),
        !occurs(third, '\t'),
    ensures
        surface_row(first) is None,
        surface_row(first + seq!['\t'] + second) is None,
        all_white(first) || parsed_u32(trim(second)) is None || parsed_u32(trim(third)) is None
            ==> {
            &&& surface_row(first + seq!['\t'] + (second + seq!['\t'] + third)) is None
            &&& surface_row(
                first + seq!['\t'] + (second + seq!['\t'] + (third + seq!['\t'] + more)),
            ) is None
        },
{
    let sep = seq!['\t'];
    let none = Seq::<char>::empty();
    splitting_parts_at_the_first(first, '\t', second);
    splitting_parts_at_the_first(second, '\t', third);
    assert(split(first + sep + second, '\t') =~= seq![first, second]);
    lemma_split_three(first, second, third);
    lemma_split_on(first, second, third, more);
    if all_white(first) {
        trimming_cuts_white_ends(first, none, none);
        assert(first + none + none =~= first);
    }
}

/// A row alone tells of its surface, or of none; rows together tell of theirs in order.
pub proof fn each_row_tells_its_surface(a: Seq<Seq<char>>, b: Seq<Seq<char>>, row: Seq<char>)
    ensures
        surfaces_of_lines(a + b) == surfaces_of_lines(a) + surfaces_of_lines(b),
        match surface_row(row) {
            Some(surface) => surfaces_of_lines(seq![row]) == seq![surface],
            None => surfaces_of_lines(seq![row]).len() == 0,
        },
{
    lemma_surfaces_of_sum(a, b);
    reveal_with_fuel(surfaces_of_lines, 2);
    assert(seq![row].drop_last() =~= Seq::<Seq<char>>::empty());
}

/// The spinner frames and the idle asterisk, and nothing else, are status; one at the beginning of
/// a workspace's name is not part of it, and neither is white space at its ends.
pub proof fn a_status_glyph_is_not_part_of_the_name(
    c: char,
    a: Seq<char>,
    name: Seq<char>,
    b: Seq<char>,
)
    requires
        all_white(a),
        all_white(b),
        name.len() > 0 ==> !is_white(name[0]) && !is_white(name.last()),
    ensures
        is_status_glyph(c) <==> 0x2800 <= c as int <= 0x28ff || c as int == 0x2733,
        is_status_glyph(c) ==> plain_name(seq![c] + a + name + b) == name,
        a.len() > 0 || name.len() == 0 || !is_status_glyph(name[0]) ==> plain_name(a + name + b)
            == name,
{
    trimming_cuts_white_ends(a, name, b);
    let full = seq![c] + a + name + b;
    assert(full.skip(1) =~= a + name + b);
    let plain = a + name + b;
    if plain.len() > 0 {
        if a.len() > 0 {
            assert(plain[0] == a[0] && is_white(a[0]));
        } else if name.len() > 0 {
            assert(plain[0] == name[0]);
        } else {
            assert(plain[0] == b[0] && is_white(b[0]));
        }
    }
}

/// The answer to the focused-surface call is the id, without the white space round it; a blank
/// answer means that nothing is focused.
pub proof fn the_answer_is_the_focused_id(a: Seq<char>, id: Seq<char>, b: Seq<char>)
    requires
        all_white(a),
        all_white(b),
        id.len() > 0 ==> !is_white(id[0]) && !is_white(id.last()),
    ensures
        id.len() > 0 ==> focused_in(a + id + b) == Some(id),
        id.len() == 0 ==> focused_in(a + id + b) is None,
{
    trimming_cuts_white_ends(a, id, b);
}

/// The jump runs `osascript` on the one script, with the id behind it.
pub proof fn a_jump_names_its_surface(id: Seq<char>)
    ensures
        focus_command(id).program == "osascript"@,
        focus_command(id).args.len() == 3,
        focus_command(id).args[0] == "-e"@,
        focus_command(id).args[1] == FOCUS_SCRIPT@,
        focus_command(id).args[2] == id,
{
}

/// A model of a surface holds each field of it, and a fetch is good exactly where it succeeded.
pub proof fn surface_models_hold_every_field(s: Surface, result: AppResult<Vec<Surface>>)
    ensures
        s@.id == s.id@,
        s@.window_index == s.window_index,
        s@.tab_index == s.tab_index,
        s@.name == s.name@,
        s@.cwd == s.cwd@,
        match result {
            Ok(surfaces) => fetched_surfaces(result) == Fetched::Good(views_of(surfaces@)),
            Err(e) => fetched_surfaces(result) == Fetched::<SurfaceModel>::Failed(error_text(e)),
        },
{
}

} // verus!
