//! The process source: pid to start time and terminal, from one `ps` call.
//!
//! `TZ=UTC` is load-bearing: session files record start times in UTC, `ps` formats local time.
//! Start times are whitespace-normalized on both sides of the liveness check, so a space-padded
//! day of the month can never decide liveness.

use std::collections::HashMap;
use vstd::prelude::*;
use vstd::string::*;
use crate::decode::{
    borrowed_lines, lines_decode_independently, lossy_lines, lossy_lines_of, whole_lines,
};
use crate::number::{
    decimal, decimal_reads_back, is_digit, lemma_decimal_digits, parse_u32, parsed_u32,
};
use crate::runner::{owned, CommandModel, CommandSpec, TIMEOUT_SECS};
use crate::text::{
    a_word_is_its_only_word, chars_of, is_ascii_white, is_text, is_word, join, join_of,
    lemma_words_are_words, lemma_words_of_join, lines, lines_of, opt_text, string_of, views,
    white_space_parts_words, words, words_of,
};

verus! {

broadcast use vstd::std_specs::hash::group_hash_axioms;

/// What the board needs to know about one live process.
#[derive(Debug, Clone, PartialEq, Eq)]
pub struct ProcFacts {
    /// Start time as `ps` renders it in UTC, whitespace-normalized: the liveness token.
    pub lstart: String,
    /// The controlling terminal as an absolute path; `None` where the process has none.
    pub tty: Option<String>,
    /// The terminal surface the process runs in, where its environment names one.
    pub surface_id: Option<String>,
    /// The account the process is attributed to, where its environment names one.
    pub account: Option<String>,
    /// Seconds since the process started; the largest value where that is not known, which
    /// reads as a start before anything else.
    pub elapsed_secs: u64,
}

/// What `ProcFacts` stand for.
pub struct ProcFactsModel {
    pub lstart: Seq<char>,
    pub tty: Option<Seq<char>>,
    pub surface_id: Option<Seq<char>>,
    pub account: Option<Seq<char>>,
    pub elapsed_secs: u64,
}

impl View for ProcFacts {
    type V = ProcFactsModel;

    open spec fn view(&self) -> ProcFactsModel {
        ProcFactsModel {
            lstart: self.lstart@,
            tty: opt_text(self.tty),
            surface_id: opt_text(self.surface_id),
            account: opt_text(self.account),
            elapsed_secs: self.elapsed_secs,
        }
    }
}

/// Facts by pid, for every process visible to this user.
pub type ProcTable = HashMap<u32, ProcFacts>;

/// What a `ProcTable` stands for.
pub open spec fn table_model(table: ProcTable) -> Map<u32, ProcFactsModel> {
    table@.map_values(|f: ProcFacts| f@)
}

/// The process-table call: pid, terminal and start time for every process, in one spawn.
pub fn table_spec() -> (r: CommandSpec)
    ensures
        r@ == (CommandModel {
            program: "ps"@,
            args: seq!["-Ao"@, "pid=,tty=,lstart="@],
            env: seq![("TZ"@, "UTC"@)],
            timeout_secs: TIMEOUT_SECS,
        }),
{
    let mut env: Vec<(String, String)> = Vec::new();
    env.push(("TZ".to_owned(), "UTC".to_owned()));
    let r = CommandSpec {
        program: "ps".to_owned(),
        args: owned(&["-Ao", "pid=,tty=,lstart="]),
        env,
        timeout_secs: TIMEOUT_SECS,
    };
    assert(r@.args =~= seq!["-Ao"@, "pid=,tty=,lstart="@]);
    assert(r@.env =~= seq![("TZ"@, "UTC"@)]);
    r
}

/// A start time with each run of whitespace made one space, and none at the ends.
pub open spec fn normalized(raw: Seq<char>) -> Seq<char> {
    join(words(raw), seq![' '])
}

/// Collapses runs of whitespace to single spaces. Applied to both sides of the liveness check.
pub fn normalize_lstart(raw: &str) -> (r: String)
    ensures
        r@ == normalized(raw@),
{
    let chars = chars_of(raw);
    let ws = words_of(chars.as_slice());
    string_of(join_of(ws.as_slice(), ' ').as_slice())
}

/// The terminal that `ps` names: `ttys000` is `/dev/ttys000`, `??` and `-` are none.
pub open spec fn tty_of_field(field: Seq<char>) -> Option<Seq<char>> {
    if field == "??"@ || field == "-"@ {
        None
    } else {
        Some("/dev/"@ + field)
    }
}

/// The process that one `ps` line tells of: a pid, a terminal and a start time of at least one
/// word; `None` for any other line.
pub open spec fn table_row(line: Seq<char>) -> Option<(u32, ProcFactsModel)> {
    let ws = words(line);
    if ws.len() < 3 {
        None
    } else {
        match parsed_u32(ws[0]) {
            Some(pid) => Some(
                (
                    pid,
                    ProcFactsModel {
                        lstart: join(ws.skip(2), seq![' ']),
                        tty: tty_of_field(ws[1]),
                        surface_id: None,
                        account: None,
                        elapsed_secs: u64::MAX,
                    },
                ),
            ),
            None => None,
        }
    }
}

/// The table that `ps` lines tell of; of two lines with one pid the later holds.
pub open spec fn table_of_lines(lines: Seq<Seq<char>>) -> Map<u32, ProcFactsModel>
    decreases lines.len(),
{
    if lines.len() == 0 {
        Map::empty()
    } else {
        let before = table_of_lines(lines.drop_last());
        match table_row(lines.last()) {
            Some((pid, facts)) => before.insert(pid, facts),
            None => before,
        }
    }
}

/// The table in the given `ps` output.
pub open spec fn table_in(text: Seq<char>) -> Map<u32, ProcFactsModel> {
    table_of_lines(lines(text))
}

fn parse_tty(field: &[char]) -> (r: Option<String>)
    ensures
        opt_text(r) == tty_of_field(field@),
{
    if is_text(field, "??") || is_text(field, "-") {
        return None;
    }
    let mut out = String::new();
    out.append("/dev/");
    out.append(string_of(field).as_str());
    assert(out@ =~= "/dev/"@ + field@);
    Some(out)
}

fn parse_rows(all: &[&[char]]) -> (r: ProcTable)
    ensures
        table_model(r) == table_of_lines(views(all@)),
{
    let ghost rows = views(all@);
    let mut table: ProcTable = HashMap::new();
    let mut i: usize = 0;
    assert(rows.take(0) =~= seq![]);
    assert(table_model(table) =~= Map::empty());
    while i < all.len()
        invariant
            i <= all.len(),
            rows == views(all@),
            table_model(table) == table_of_lines(rows.take(i as int)),
        decreases all.len() - i,
    {
        let ws = words_of(all[i]);
        assert(rows.take(i + 1).drop_last() =~= rows.take(i as int));
        assert(rows.take(i + 1).last() == all@[i as int]@);
        if ws.len() >= 3 {
            assert(words(rows[i as int])[0] == ws@[0]@);
            assert(words(rows[i as int])[1] == ws@[1]@);
            if let Some(pid) = parse_u32(ws[0]) {
                let started = vstd::slice::slice_subrange(ws.as_slice(), 2, ws.len());
                assert(views(started@) =~= words(rows[i as int]).skip(2));
                let facts = ProcFacts {
                    lstart: string_of(join_of(started, ' ').as_slice()),
                    tty: parse_tty(ws[1]),
                    surface_id: None,
                    account: None,
                    elapsed_secs: u64::MAX,
                };
                let ghost before = table_model(table);
                let ghost told = facts@;
                table.insert(pid, facts);
                assert(table_model(table) =~= before.insert(pid, told));
            }
        }
        i += 1;
    }
    assert(rows.take(i as int) =~= rows);
    table
}

/// Parses the text of `ps -Ao pid=,tty=,lstart=`. Malformed lines are skipped, never fatal.
pub fn parse_table_text(text: &str) -> (r: ProcTable)
    ensures
        table_model(r) == table_in(text@),
{
    let chars = chars_of(text);
    parse_rows(lines_of(chars.as_slice()).as_slice())
}

/// The table in the output of the process-table call.
pub open spec fn table_in_bytes(bytes: Seq<u8>) -> Map<u32, ProcFactsModel> {
    table_of_lines(lossy_lines(bytes))
}

/// Parses `ps -Ao pid=,tty=,lstart=` output. A drifted `ps` degrades to a smaller table.
pub fn parse_table(bytes: &[u8]) -> (r: ProcTable)
    ensures
        table_model(r) == table_in_bytes(bytes@),
        vstd::utf8::valid_utf8(bytes@) ==> table_model(r) == table_in(
            vstd::utf8::decode_utf8(bytes@),
        ),
{
    let decoded = lossy_lines_of(bytes);
    parse_rows(borrowed_lines(&decoded).as_slice())
}

proof fn lemma_table_of_sum(a: Seq<Seq<char>>, b: Seq<Seq<char>>)
    ensures
        table_of_lines(a + b) == table_of_lines(a).union_prefer_right(table_of_lines(b)),
    decreases b.len(),
{
    let (ta, tb) = (table_of_lines(a), table_of_lines(b));
    if b.len() == 0 {
        assert(a + b =~= a);
        assert(ta.union_prefer_right(tb) =~= ta);
    } else {
        lemma_table_of_sum(a, b.drop_last());
        assert((a + b).drop_last() =~= a + b.drop_last());
        assert(table_of_lines(a + b) =~= ta.union_prefer_right(tb));
    }
}

/// Process lines are read independently: after whole lines, whatever bytes they hold, what
/// follows is read as it would be alone, and where both tell of a pid the later holds.
pub proof fn lines_are_read_independently(a: Seq<u8>, b: Seq<u8>)
    requires
        whole_lines(a),
    ensures
        table_in_bytes(a + b) == table_in_bytes(a).union_prefer_right(table_in_bytes(b)),
{
    lines_decode_independently(a, b);
    lemma_table_of_sum(lossy_lines(a), lossy_lines(b));
}

/// Two start times compare equal exactly where they are made of the same words: padding never
/// decides.
pub proof fn padding_never_decides(a: Seq<char>, b: Seq<char>)
    ensures
        normalized(a) == normalized(b) <==> words(a) == words(b),
{
    lemma_words_are_words(a);
    lemma_words_are_words(b);
    lemma_words_of_join(words(a));
    lemma_words_of_join(words(b));
}

/// Normalizing a start time twice is normalizing it once.
pub proof fn normalizing_is_idempotent(a: Seq<char>)
    ensures
        normalized(normalized(a)) == normalized(a),
{
    lemma_words_are_words(a);
    lemma_words_of_join(words(a));
}

/// A malformed line makes no difference, wherever it stands: it is skipped, and the rest is read.
pub proof fn malformed_lines_make_no_difference(
    before: Seq<Seq<char>>,
    line: Seq<char>,
    after: Seq<Seq<char>>,
)
    requires
        table_row(line) is None,
    ensures
        table_of_lines(before.push(line) + after) == table_of_lines(before + after),
    decreases after.len(),
{
    let (a, b) = (before.push(line) + after, before + after);
    if after.len() == 0 {
        assert(a.drop_last() =~= before);
        assert(b =~= before);
    } else {
        malformed_lines_make_no_difference(before, line, after.drop_last());
        assert(a.drop_last() =~= before.push(line) + after.drop_last());
        assert(b.drop_last() =~= before + after.drop_last());
    }
}

/// Normalizing keeps every word, in order, and parts them by single spaces.
pub proof fn normalizing_keeps_the_words(raw: Seq<char>, ws: Seq<Seq<char>>)
    requires
        forall|i: int| 0 <= i < ws.len() ==> is_word(#[trigger] ws[i]),
    ensures
        words(normalized(raw)) == words(raw),
        words(raw) == ws ==> normalized(raw) == join(ws, seq![' ']),
        normalized(join(ws, seq![' '])) == join(ws, seq![' ']),
{
    lemma_words_are_words(raw);
    lemma_words_of_join(words(raw));
    lemma_words_of_join(ws);
}

/// Whether every character of `s` is ASCII whitespace.
pub open spec fn all_ascii_white(s: Seq<char>) -> bool {
    forall|i: int| 0 <= i < s.len() ==> is_ascii_white(#[trigger] s[i])
}

/// Whatever start time `ps` prints after a pid and a terminal, however it pads them: the line is
/// read as that pid, that terminal and that start time, all of it.
pub proof fn a_process_line_is_read_whole(
    lead: Seq<char>,
    pid: u32,
    gap: Seq<char>,
    tty: Seq<char>,
    more: Seq<char>,
    start: Seq<char>,
)
    requires
        all_ascii_white(lead),
        all_ascii_white(gap),
        gap.len() > 0,
        is_word(tty),
        all_ascii_white(more),
        more.len() > 0,
        words(start).len() > 0,
    ensures
        table_row(lead + decimal(pid as nat) + gap + tty + more + start) matches Some((p, facts))
            && p == pid && facts.lstart == normalized(start) && words(facts.lstart) == words(start)
            && facts.tty == (if tty == "??"@ || tty == "-"@ {
            None
        } else {
            Some("/dev/"@ + tty)
        }) && facts.surface_id is None && facts.account is None,
{
    let number = decimal(pid as nat);
    let line = lead + number + gap + tty + more + start;
    lemma_decimal_digits(pid as nat);
    assert forall|i: int| 0 <= i < number.len() implies !is_ascii_white(#[trigger] number[i]) by {
        assert(is_digit(number[i]));
    }
    a_word_is_its_only_word(number);
    a_word_is_its_only_word(tty);
    white_space_parts_words(lead + number + gap + tty, more, start);
    white_space_parts_words(lead + number, gap, tty);
    if lead.len() > 0 {
        white_space_parts_words(Seq::empty(), lead, number);
        assert(Seq::<char>::empty() + lead + number =~= lead + number);
        assert(words(Seq::empty()) =~= Seq::<Seq<char>>::empty());
        assert(words(lead + number) =~= seq![number]);
    } else {
        assert(lead + number =~= number);
    }
    let ws = words(line);
    assert(ws =~= seq![number, tty] + words(start));
    assert(ws.skip(2) =~= words(start));
    decimal_reads_back(pid);
    lemma_words_are_words(start);
    lemma_words_of_join(words(start));
}

/// A line tells of its process whatever lines stand around it, unless a later one tells of the
/// same pid.
pub proof fn a_told_process_is_in_the_table(
    before: Seq<Seq<char>>,
    line: Seq<char>,
    after: Seq<Seq<char>>,
    pid: u32,
    facts: ProcFactsModel,
)
    requires
        table_row(line) == Some((pid, facts)),
        forall|i: int|
            0 <= i < after.len() ==> (table_row(#[trigger] after[i]) matches Some((other, _))
                ==> other != pid),
    ensures
        table_of_lines(before.push(line) + after).contains_key(pid),
        table_of_lines(before.push(line) + after)[pid] == facts,
    decreases after.len(),
{
    let all = before.push(line) + after;
    if after.len() == 0 {
        assert(all =~= before.push(line));
        assert(all.drop_last() =~= before);
    } else {
        assert(all.drop_last() =~= before.push(line) + after.drop_last());
        assert forall|i: int| 0 <= i < after.drop_last().len() implies (table_row(
            #[trigger] after.drop_last()[i],
        ) matches Some((other, _)) ==> other != pid) by {
            assert(after.drop_last()[i] == after[i]);
        }
        a_told_process_is_in_the_table(before, line, after.drop_last(), pid, facts);
        assert(all.last() == after[after.len() - 1]);
    }
}

/// The table holds nothing that no line tells.
pub proof fn the_table_holds_only_what_is_told(lines: Seq<Seq<char>>, pid: u32)
    ensures
        table_of_lines(lines).contains_key(pid) ==> exists|i: int|
            #![trigger lines[i]]
            0 <= i < lines.len() && table_row(lines[i]) == Some((pid, table_of_lines(lines)[pid])),
    decreases lines.len(),
{
    if lines.len() > 0 {
        let front = lines.drop_last();
        the_table_holds_only_what_is_told(front, pid);
        if table_of_lines(lines).contains_key(pid) {
            if table_row(lines.last()) == Some((pid, table_of_lines(lines)[pid])) {
                assert(lines[lines.len() - 1] == lines.last());
            } else {
                let i = choose|i: int|
                    #![trigger front[i]]
                    0 <= i < front.len() && table_row(front[i]) == Some(
                        (pid, table_of_lines(front)[pid]),
                    );
                assert(lines[i] == front[i]);
            }
        }
    }
}

/// A line with fewer than three words, or whose first is no pid, tells of no process.
pub proof fn a_line_without_a_start_tells_nothing(line: Seq<char>)
    ensures
        words(line).len() < 3 ==> table_row(line) is None,
        words(line).len() > 0 && parsed_u32(words(line)[0]) is None ==> table_row(line) is None,
{
}

/// The models hold what the values hold.
pub proof fn process_models_hold_every_field(facts: ProcFacts, table: ProcTable, pid: u32)
    ensures
        facts@.lstart == facts.lstart@,
        facts.tty matches Some(t) ==> facts@.tty == Some(t@),
        facts.tty is None ==> facts@.tty is None,
        facts.surface_id matches Some(t) ==> facts@.surface_id == Some(t@),
        facts.surface_id is None ==> facts@.surface_id is None,
        facts.account matches Some(t) ==> facts@.account == Some(t@),
        facts.account is None ==> facts@.account is None,
        facts@.elapsed_secs == facts.elapsed_secs,
        table_model(table).contains_key(pid) <==> table@.contains_key(pid),
        table@.contains_key(pid) ==> table_model(table)[pid] == table@[pid]@,
{
}

} // verus!
