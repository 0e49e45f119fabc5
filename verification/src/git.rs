//! The branch lane: a session's directory to its git branch, by reading `.git` directly.
//!
//! In a worktree `.git` is a file that points elsewhere, and worktrees are the common case. An
//! absent, unreadable or garbled `.git` means that there is no branch to show, never an error.

use vstd::prelude::*;
use vstd::slice::slice_subrange;
use crate::text::{
    a_prefix_and_its_rest_are_the_text, after_prefix, after_prefix_of, all_white, chars_of,
    is_white, lemma_position_is, lines, lines_of, opt_text, starts_with, string_of, trim, trim_end,
    trim_of, trim_start, trimming_cuts_white_ends, views,
};

verus! {

/// How far up from a directory a repository is looked for.
pub const MAX_ANCESTORS: usize = 64;

/// How many characters of a commit's hash are shown.
pub const SHORT_SHA: usize = 7;

/// Whether `c` is a hexadecimal digit.
pub open spec fn is_hex(c: char) -> bool {
    '0' <= c <= '9' || 'a' <= c <= 'f' || 'A' <= c <= 'F'
}

/// Whether `head` is a commit's hash, or a beginning of one that is long enough to tell.
pub open spec fn is_sha(head: Seq<char>) -> bool {
    head.len() >= SHORT_SHA && forall|i: int| 0 <= i < head.len() ==> is_hex(#[trigger] head[i])
}

/// The branch that a `HEAD` file names: what follows `refs/heads/`, or the short hash of a
/// detached head; `None` for anything else.
pub open spec fn branch_in(head: Seq<char>) -> Option<Seq<char>> {
    let h = trim(head);
    match after_prefix(h, "ref: "@) {
        Some(reference) => match after_prefix(reference, "refs/heads/"@) {
            Some(branch) => if branch.len() > 0 {
                Some(branch)
            } else {
                None
            },
            None => None,
        },
        None => if is_sha(h) {
            Some(h.take(SHORT_SHA as int))
        } else {
            None
        },
    }
}

fn hex(c: char) -> (r: bool)
    ensures
        r == is_hex(c),
{
    ('0' <= c && c <= '9') || ('a' <= c && c <= 'f') || ('A' <= c && c <= 'F')
}

fn looks_like_sha(head: &[char]) -> (r: bool)
    ensures
        r == is_sha(head@),
{
    if head.len() < SHORT_SHA {
        return false;
    }
    let mut i: usize = 0;
    while i < head.len()
        invariant
            i <= head.len(),
            forall|k: int| 0 <= k < i ==> is_hex(#[trigger] head@[k]),
        decreases head.len() - i,
    {
        if !hex(head[i]) {
            assert(!is_hex(head@[i as int]));
            return false;
        }
        i += 1;
    }
    true
}

/// `ref: refs/heads/feat/x` is `feat/x`, one branch and not a namespace; a detached head's hash
/// is its short form. Anything else is `None`.
pub fn branch_from_head(head: &str) -> (r: Option<String>)
    ensures
        opt_text(r) == branch_in(head@),
{
    let chars = chars_of(head);
    let h = trim_of(chars.as_slice());
    match after_prefix_of(h, "ref: ") {
        Some(reference) => match after_prefix_of(reference, "refs/heads/") {
            Some(branch) => if branch.len() > 0 {
                Some(string_of(branch))
            } else {
                None
            },
            None => None,
        },
        None => if looks_like_sha(h) {
            assert(h@.subrange(0, SHORT_SHA as int) =~= h@.take(SHORT_SHA as int));
            Some(string_of(slice_subrange(h, 0, SHORT_SHA)))
        } else {
            None
        },
    }
}

/// What follows `gitdir:` in the first line that begins so.
pub open spec fn first_pointer(lines: Seq<Seq<char>>) -> Option<Seq<char>>
    decreases lines.len(),
{
    if lines.len() == 0 {
        None
    } else {
        match after_prefix(trim(lines[0]), "gitdir:"@) {
            Some(rest) => Some(rest),
            None => first_pointer(lines.drop_first()),
        }
    }
}

/// The path that a `.git` file points at.
pub open spec fn pointer_in(contents: Seq<char>) -> Option<Seq<char>> {
    match first_pointer(lines(contents)) {
        Some(path) => if trim(path).len() > 0 {
            Some(trim(path))
        } else {
            None
        },
        None => None,
    }
}

/// `gitdir: /path/to/.git/worktrees/name` is that path.
pub fn gitdir_from_file(contents: &str) -> (r: Option<String>)
    ensures
        opt_text(r) == pointer_in(contents@),
{
    let chars = chars_of(contents);
    let all = lines_of(chars.as_slice());
    let ghost rows = views(all@);
    let mut i: usize = 0;
    assert(rows.skip(0) =~= rows);
    while i < all.len()
        invariant
            i <= all.len(),
            rows == views(all@),
            rows == lines(contents@),
            first_pointer(rows) == first_pointer(rows.skip(i as int)),
        decreases all.len() - i,
    {
        assert(rows.skip(i as int)[0] == all@[i as int]@);
        assert(rows.skip(i as int).drop_first() =~= rows.skip(i + 1));
        if let Some(rest) = after_prefix_of(trim_of(all[i]), "gitdir:") {
            let path = trim_of(rest);
            return if path.len() > 0 {
                Some(string_of(path))
            } else {
                None
            };
        }
        i += 1;
    }
    None
}

/// What stands at `.git` in one directory.
#[derive(Debug, Clone, PartialEq, Eq)]
pub enum DotGit {
    /// Nothing.
    Missing,
    /// A directory: the git directory itself.
    Directory,
    /// A file with these contents; `None` where it could not be read.
    File(Option<String>),
}

/// The git directory that governs a working directory.
#[derive(Debug, Clone, PartialEq, Eq)]
pub enum GitDir {
    /// `.git` in the ancestor of this number, the working directory itself being the first.
    OfAncestor(usize),
    /// A directory elsewhere: that of a worktree.
    Elsewhere(String),
}

/// The first ancestor with a `.git`, among as many as are looked at; their number where there is
/// none.
pub open spec fn first_present(probes: Seq<DotGit>) -> nat
    decreases probes.len(),
{
    if probes.len() == 0 || probes[0] !is Missing {
        0
    } else {
        1 + first_present(probes.drop_first())
    }
}

/// The git directory that the nearest `.git` is or points at.
pub open spec fn is_git_dir(found: Option<GitDir>, probes: Seq<DotGit>) -> bool {
    let i = first_present(probes) as int;
    if i >= probes.len() || i >= MAX_ANCESTORS {
        found is None
    } else {
        match probes[i] {
            DotGit::Directory => found == Some(GitDir::OfAncestor(i as usize)),
            DotGit::File(Some(contents)) => match pointer_in(contents@) {
                Some(path) => found matches Some(GitDir::Elsewhere(p)) && p@ == path,
                None => found is None,
            },
            _ => found is None,
        }
    }
}

proof fn lemma_first_present_is(probes: Seq<DotGit>, n: int)
    requires
        0 <= n <= probes.len(),
        n < probes.len() ==> probes[n] !is Missing,
        forall|j: int| 0 <= j < n ==> probes[j] is Missing,
    ensures
        first_present(probes) == n,
    decreases probes.len(),
{
    if n > 0 {
        let rest = probes.drop_first();
        assert forall|j: int| 0 <= j < n - 1 implies rest[j] is Missing by {
            assert(rest[j] == probes[j + 1]);
        }
        assert(n < probes.len() ==> rest[n - 1] == probes[n]);
        lemma_first_present_is(rest, n - 1);
    }
}

/// Finds the git directory that governs a directory, from what stands at `.git` in it and in its
/// ancestors, the nearest first.
pub fn resolve_git_dir(probes: &[DotGit]) -> (r: Option<GitDir>)
    ensures
        is_git_dir(r, probes@),
{
    let mut i: usize = 0;
    while i < probes.len() && is_missing(&probes[i])
        invariant
            i <= probes.len(),
            forall|j: int| 0 <= j < i ==> probes@[j] is Missing,
        decreases probes.len() - i,
    {
        i += 1;
    }
    proof {
        lemma_first_present_is(probes@, i as int);
    }
    if i == probes.len() || i >= MAX_ANCESTORS {
        return None;
    }
    match &probes[i] {
        DotGit::Directory => Some(GitDir::OfAncestor(i)),
        DotGit::File(Some(contents)) => match gitdir_from_file(contents.as_str()) {
            Some(path) => Some(GitDir::Elsewhere(path)),
            None => None,
        },
        _ => None,
    }
}

fn is_missing(probe: &DotGit) -> (r: bool)
    ensures
        r == (probe is Missing),
{
    match probe {
        DotGit::Missing => true,
        _ => false,
    }
}

/// The nearest `.git` governs: what stands in the directories above it makes no difference.
pub proof fn the_nearest_governs(
    found: Option<GitDir>,
    near: Seq<DotGit>,
    a: Seq<DotGit>,
    b: Seq<DotGit>,
)
    requires
        near.len() > 0,
        near.last() !is Missing,
    ensures
        is_git_dir(found, near + a) == is_git_dir(found, near + b),
{
    lemma_first_within(near, a);
    lemma_first_within(near, b);
    let i = first_present(near) as int;
    assert((near + a)[i] == (near + b)[i]);
}

proof fn lemma_first_within(near: Seq<DotGit>, more: Seq<DotGit>)
    requires
        near.len() > 0,
        near.last() !is Missing,
    ensures
        first_present(near) < near.len(),
        first_present(near + more) == first_present(near),
    decreases near.len(),
{
    if near[0] is Missing {
        assert(near.drop_first().last() == near.last());
        lemma_first_within(near.drop_first(), more);
        assert((near + more).drop_first() =~= near.drop_first() + more);
    }
}

/// A text that neither begins nor ends with white space.
pub open spec fn tight(s: Seq<char>) -> bool {
    s.len() > 0 && !is_white(s[0]) && !is_white(s.last())
}

proof fn lemma_trim_line(s: Seq<char>)
    requires
        tight(s),
    ensures
        trim(s) == s,
        trim(s.push('\n')) == s,
{
    assert(s.push('\n').drop_last() =~= s);
    assert(s.push('\n')[0] == s[0]);
    assert(trim_start(s) == s);
    assert(trim_start(s.push('\n')) == s.push('\n'));
    assert(trim_end(s.push('\n')) == trim_end(s));
}

/// A `HEAD` file written for a branch names that branch, slashes and all.
pub proof fn a_branch_reads_back(branch: Seq<char>)
    requires
        branch.len() > 0,
        !is_white(branch.last()),
    ensures
        branch_in(("ref: refs/heads/"@ + branch).push('\n')) == Some(branch),
        branch_in("ref: refs/heads/"@ + branch) == Some(branch),
{
    reveal_strlit("ref: refs/heads/");
    reveal_strlit("ref: ");
    reveal_strlit("refs/heads/");
    let h = "ref: refs/heads/"@ + branch;
    assert(h[0] == 'r');
    assert(h.last() == branch.last());
    lemma_trim_line(h);
    assert(h.take(5) =~= "ref: "@);
    let reference = h.skip(5);
    assert(after_prefix(h, "ref: "@) == Some(reference));
    assert(reference.take(11) =~= "refs/heads/"@);
    assert(reference.skip(11) =~= branch);
}

/// The branch shown for a detached head is the beginning of its hash.
pub proof fn a_detached_head_is_shown_short(sha: Seq<char>)
    requires
        is_sha(sha),
    ensures
        branch_in(sha) == Some(sha.take(SHORT_SHA as int)),
        branch_in(sha.push('\n')) == Some(sha.take(SHORT_SHA as int)),
{
    reveal_strlit("ref: ");
    assert(is_hex(sha[0]));
    assert(is_hex(sha[sha.len() - 1]));
    lemma_trim_line(sha);
    assert("ref: "@[0] == 'r');
    assert(!starts_with(sha, "ref: "@)) by {
        if starts_with(sha, "ref: "@) {
            assert(sha.take(5)[0] == sha[0]);
        }
    }
}

/// A `.git` file written for a path points at that path.
pub proof fn a_pointer_reads_back(path: Seq<char>)
    requires
        tight(path),
        !path.contains('\n'),
    ensures
        pointer_in(("gitdir: "@ + path).push('\n')) == Some(path),
{
    reveal_strlit("gitdir: ");
    reveal_strlit("gitdir:");
    let line = "gitdir: "@ + path;
    let s = line.push('\n');
    let n = line.len() as int;
    assert forall|j: int| 0 <= j < n implies s[j] != '\n' by {
        if j >= 8 {
            assert(s[j] == path[j - 8]);
        }
    }
    lemma_position_is(s, '\n', n);
    assert(s.take(n) =~= line);
    assert(line.last() == path.last());
    assert(s.skip(n + 1) =~= seq![]);
    assert(lines(s.skip(n + 1)) =~= seq![]);
    assert(lines(s) =~= seq![line]);
    assert(line[0] == 'g');
    lemma_trim_line(line);
    assert(line.take(7) =~= "gitdir:"@);
    let rest = line.skip(7);
    assert(after_prefix(line, "gitdir:"@) == Some(rest));
    assert(rest =~= seq![' '] + path);
    assert(rest.drop_first() =~= path);
    assert(trim_start(rest) == trim_start(path));
    lemma_trim_line(path);
}

/// Hexadecimal digits are the decimal ones and the first six letters, in either case.
pub proof fn hexadecimal_digits_by_their_codes(c: char)
    ensures
        is_hex(c) <==> 0x30 <= c as int <= 0x39 || 0x41 <= c as int <= 0x46 || 0x61 <= c as int
            <= 0x66,
{
}

/// A detached head is shown by seven characters of its hash, which has at least as many, white
/// space round it or not.
pub proof fn a_hash_is_shown_by_seven_characters(a: Seq<char>, sha: Seq<char>, b: Seq<char>)
    requires
        all_white(a),
        all_white(b),
        sha.len() >= 7,
        forall|i: int| 0 <= i < sha.len() ==> is_hex(#[trigger] sha[i]),
    ensures
        branch_in(a + sha + b) == Some(sha.subrange(0, 7)),
{
    assert(is_hex(sha[0]) && is_hex(sha[sha.len() - 1]));
    trimming_cuts_white_ends(a, sha, b);
    reveal_strlit("ref: ");
    if starts_with(sha, "ref: "@) {
        assert(sha.take(5)[0] == 'r');
    }
    assert(sha.take(7) =~= sha.subrange(0, 7));
}

/// A head that is no hash shows a branch exactly where it refers to one: another reference, an
/// empty branch and garbage show nothing.
pub proof fn only_branches_and_hashes_are_shown(a: Seq<char>, head: Seq<char>, b: Seq<char>)
    requires
        all_white(a),
        all_white(b),
        head.len() > 0 ==> !is_white(head[0]) && !is_white(head.last()),
        head.len() < 7 || exists|i: int| 0 <= i < head.len() && !is_hex(#[trigger] head[i]),
    ensures
        forall|branch: Seq<char>|
            branch_in(a + head + b) == Some(branch) ==> branch.len() > 0 && head
                == #[trigger] ("ref: refs/heads/"@ + branch),
        forall|branch: Seq<char>|
            branch.len() > 0 && head == #[trigger] ("ref: refs/heads/"@ + branch) ==> branch_in(
                a + head + b,
            ) == Some(branch),
{
    trimming_cuts_white_ends(a, head, b);
    reveal_strlit("ref: refs/heads/");
    reveal_strlit("ref: ");
    reveal_strlit("refs/heads/");
    assert("ref: refs/heads/"@ =~= "ref: "@ + "refs/heads/"@);
    assert(!is_sha(head));
    assert forall|branch: Seq<char>|
        branch_in(a + head + b) == Some(branch) implies branch.len() > 0 && head
        == #[trigger] ("ref: refs/heads/"@ + branch) by {
        let reference = head.skip(5);
        a_prefix_and_its_rest_are_the_text(head, "ref: "@, reference);
        a_prefix_and_its_rest_are_the_text(reference, "refs/heads/"@, branch);
        assert(head =~= "ref: refs/heads/"@ + branch);
    }
    assert forall|branch: Seq<char>|
        branch.len() > 0 && head == #[trigger] ("ref: refs/heads/"@ + branch) implies branch_in(
        a + head + b,
    ) == Some(branch) by {
        let reference = "refs/heads/"@ + branch;
        assert(head =~= "ref: "@ + reference);
        a_prefix_and_its_rest_are_the_text(head, "ref: "@, reference);
        a_prefix_and_its_rest_are_the_text(reference, "refs/heads/"@, branch);
    }
}

/// The first line that begins with `gitdir:`, indented or not, is the pointer: lines before it are
/// passed over, and lines behind it make no difference.
pub proof fn the_first_pointer_counts(rows: Seq<Seq<char>>, k: int, rest: Seq<char>)
    requires
        0 <= k < rows.len(),
        trim(rows[k]) == "gitdir:"@ + rest,
        forall|j: int, other: Seq<char>|
            0 <= j < k ==> #[trigger] trim(rows[j]) != #[trigger] ("gitdir:"@ + other),
    ensures
        first_pointer(rows) == Some(rest),
    decreases k,
{
    a_prefix_and_its_rest_are_the_text(trim(rows[0]), "gitdir:"@, trim(rows[0]).skip(
        "gitdir:"@.len() as int,
    ));
    if k == 0 {
        a_prefix_and_its_rest_are_the_text(trim(rows[0]), "gitdir:"@, rest);
    } else {
        let other = trim(rows[0]).skip("gitdir:"@.len() as int);
        assert(trim(rows[0]) != "gitdir:"@ + other);
        let tail = rows.drop_first();
        assert forall|j: int, other: Seq<char>|
            0 <= j < k - 1 implies #[trigger] trim(tail[j]) != #[trigger] ("gitdir:"@ + other) by {
            assert(tail[j] == rows[j + 1]);
            assert(trim(rows[j + 1]) != "gitdir:"@ + other);
        }
        assert(tail[k - 1] == rows[k]);
        the_first_pointer_counts(tail, k - 1, rest);
    }
}

/// A `.git` file without a pointer, or with a blank one, points nowhere; otherwise it points at
/// what follows `gitdir:`, without the white space round it.
pub proof fn a_pointer_is_a_path(contents: Seq<char>, a: Seq<char>, path: Seq<char>, b: Seq<char>)
    requires
        all_white(a),
        all_white(b),
        path.len() > 0 ==> !is_white(path[0]) && !is_white(path.last()),
    ensures
        first_pointer(lines(contents)) is None ==> pointer_in(contents) is None,
        first_pointer(lines(contents)) == Some(a + path + b) ==> if path.len() > 0 {
            pointer_in(contents) == Some(path)
        } else {
            pointer_in(contents) is None
        },
{
    trimming_cuts_white_ends(a, path, b);
}

/// No line that begins with `gitdir:` means no pointer.
pub proof fn without_a_pointer_line_there_is_none(rows: Seq<Seq<char>>)
    ensures
        first_pointer(rows) is None <==> forall|j: int, rest: Seq<char>|
            0 <= j < rows.len() ==> #[trigger] trim(rows[j]) != #[trigger] ("gitdir:"@ + rest),
    decreases rows.len(),
{
    if rows.len() > 0 {
        let tail = rows.drop_first();
        without_a_pointer_line_there_is_none(tail);
        let first = trim(rows[0]);
        let other = first.skip("gitdir:"@.len() as int);
        a_prefix_and_its_rest_are_the_text(first, "gitdir:"@, other);
        if first_pointer(rows) is None {
            assert forall|j: int, rest: Seq<char>|
                0 <= j < rows.len() implies #[trigger] trim(rows[j]) != #[trigger] ("gitdir:"@
                + rest) by {
                if j == 0 {
                    a_prefix_and_its_rest_are_the_text(first, "gitdir:"@, rest);
                } else {
                    assert(tail[j - 1] == rows[j]);
                    assert(trim(tail[j - 1]) != "gitdir:"@ + rest);
                }
            }
        } else if after_prefix(first, "gitdir:"@) is Some {
            assert(trim(rows[0]) == "gitdir:"@ + other);
        } else {
            let (j, rest) = choose|j: int, rest: Seq<char>|
                0 <= j < tail.len() && #[trigger] trim(tail[j]) == #[trigger] ("gitdir:"@ + rest);
            assert(rows[j + 1] == tail[j]);
            assert(trim(rows[j + 1]) == "gitdir:"@ + rest);
        }
    }
}

/// The nearest `.git` among the first sixty-four directories decides: a directory governs itself,
/// a file governs by what it points at, and one that points nowhere, or was not read, hides what
/// is above it.
pub proof fn the_nearest_of_sixty_four_decides(
    found: Option<GitDir>,
    probes: Seq<DotGit>,
    i: int,
)
    requires
        is_git_dir(found, probes),
        0 <= i < probes.len(),
        forall|j: int| 0 <= j < i ==> (#[trigger] probes[j]) is Missing,
        probes[i] !is Missing,
    ensures
        i >= 64 ==> found is None,
        i < 64 && probes[i] is Directory ==> found == Some(GitDir::OfAncestor(i as usize)),
        i < 64 ==> match probes[i] {
            DotGit::File(Some(contents)) => match found {
                Some(GitDir::Elsewhere(path)) => pointer_in(contents@) == Some(path@),
                Some(_) => false,
                None => pointer_in(contents@) is None,
            },
            DotGit::File(None) => found is None,
            _ => true,
        },
{
    lemma_first_present_is(probes, i);
}

/// Without a `.git` there is no git directory.
pub proof fn without_a_repository_there_is_no_branch(found: Option<GitDir>, probes: Seq<DotGit>)
    requires
        is_git_dir(found, probes),
        forall|j: int| 0 <= j < probes.len() ==> (#[trigger] probes[j]) is Missing,
    ensures
        found is None,
{
    lemma_first_present_is(probes, probes.len() as int);
}

} // verus!
