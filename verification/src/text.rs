//! Text as sequences of characters: the few string operations every parser here is built from.
//!
//! A parser turns its input into characters once (`chars_of`), works on borrowed slices of
//! them, and makes a `String` (`string_of`) only for what it keeps.

use vstd::prelude::*;
use vstd::slice::slice_subrange;
use vstd::utf8::{decode_utf8, valid_utf8};

verus! {

/// The characters of each piece.
pub open spec fn views(pieces: Seq<&[char]>) -> Seq<Seq<char>> {
    Seq::new(pieces.len(), |i: int| pieces[i]@)
}

/// The text of an optional string.
pub open spec fn opt_text(s: Option<String>) -> Option<Seq<char>> {
    match s {
        Some(s) => Some(s@),
        None => None,
    }
}

/// The text of each string.
pub open spec fn texts(strings: Seq<String>) -> Seq<Seq<char>> {
    Seq::new(strings.len(), |i: int| strings[i]@)
}

/// `String::push` appends the given character to the end of the string.
pub assume_specification[ String::push ](s: &mut String, c: char)
    ensures
        final(s)@ == old(s)@.push(c),
;

/// What `String::from_utf8_lossy` makes of bytes: the text they encode, with a replacement
/// character for each stretch that is not UTF-8.
pub uninterp spec fn utf8_lossy(bytes: Seq<u8>) -> Seq<char>;

/// Calls `String::from_utf8_lossy`: the text depends on the bytes alone, and bytes that are
/// UTF-8 throughout give exactly the text they encode.
#[verifier::external_body]
pub(crate) fn lossy_text(bytes: &[u8]) -> (r: String)
    ensures
        r@ == utf8_lossy(bytes@),
        valid_utf8(bytes@) ==> r@ == decode_utf8(bytes@),
{
    String::from_utf8_lossy(bytes).into_owned()
}

/// The characters of `s`, in order.
pub fn chars_of(s: &str) -> (r: Vec<char>)
    ensures
        r@ == s@,
{
    let mut out: Vec<char> = Vec::new();
    for c in it: s.chars()
        invariant
            out@ == it.seq().take(it.index()),
            it.seq() == s@,
    {
        out.push(c);
    }
    out
}

/// The string made of `cs`.
pub fn string_of(cs: &[char]) -> (r: String)
    ensures
        r@ == cs@,
{
    let mut out = String::new();
    let mut i: usize = 0;
    while i < cs.len()
        invariant
            i <= cs.len(),
            out@ == cs@.take(i as int),
        decreases cs.len() - i,
    {
        out.push(cs[i]);
        i += 1;
        assert(cs@.take(i as int) =~= cs@.take(i - 1).push(cs@[i - 1]));
    }
    assert(cs@.take(i as int) =~= cs@);
    out
}

/// The index of the first `x` in `s`, or the length of `s` where there is none.
pub open spec fn position<T>(s: Seq<T>, x: T) -> nat
    decreases s.len(),
{
    if s.len() == 0 || s[0] == x {
        0
    } else {
        1 + position(s.drop_first(), x)
    }
}

/// `position` is characterized by what it finds and what it passes over.
pub proof fn lemma_position<T>(s: Seq<T>, x: T)
    ensures
        position(s, x) <= s.len(),
        position(s, x) < s.len() ==> s[position(s, x) as int] == x,
        forall|j: int| 0 <= j < position(s, x) ==> s[j] != x,
    decreases s.len(),
{
    if s.len() != 0 && s[0] != x {
        let t = s.drop_first();
        lemma_position(t, x);
        assert forall|j: int| 0 <= j < position(s, x) implies s[j] != x by {
            if j > 0 {
                assert(t[j - 1] == s[j]);
            }
        }
    }
}

/// An index with nothing but other elements before it is the `position`.
pub proof fn lemma_position_is<T>(s: Seq<T>, x: T, i: int)
    requires
        0 <= i <= s.len(),
        i < s.len() ==> s[i] == x,
        forall|j: int| 0 <= j < i ==> s[j] != x,
    ensures
        position(s, x) == i,
{
    lemma_position(s, x);
    let p = position(s, x) as int;
    if p < i {
        assert(s[p] == x);
    } else if i < p {
        assert(s[i] != x);
    }
}

/// The pieces of `s` between occurrences of `x`: always one more than there are occurrences.
pub open spec fn split<T>(s: Seq<T>, x: T) -> Seq<Seq<T>>
    decreases s.len(),
{
    let i = position(s, x) as int;
    if i < s.len() {
        seq![s.take(i)] + split(s.skip(i + 1), x)
    } else {
        seq![s]
    }
}

/// `s` without the `x` it may end with.
pub open spec fn without_last<T>(s: Seq<T>, x: T) -> Seq<T> {
    if s.len() > 0 && s.last() == x {
        s.drop_last()
    } else {
        s
    }
}

/// The lines of `s`, whose line feed is `lf` and whose carriage return is `cr`: each ends at a
/// line feed, or a carriage return and a line feed, neither of which is part of it; what follows
/// the last line feed is a line where it is not empty.
pub open spec fn lines_at<T>(s: Seq<T>, lf: T, cr: T) -> Seq<Seq<T>>
    decreases s.len(),
{
    let i = position(s, lf) as int;
    if s.len() == 0 {
        seq![]
    } else if i < s.len() {
        seq![without_last(s.take(i), cr)] + lines_at(s.skip(i + 1), lf, cr)
    } else {
        seq![s]
    }
}

/// The lines of a text.
pub open spec fn lines(s: Seq<char>) -> Seq<Seq<char>> {
    lines_at(s, '\n', '\r')
}

/// Lines after a line feed are lines of their own: what precedes it leaves them as they are.
pub proof fn lemma_lines_of_sum<T>(a: Seq<T>, b: Seq<T>, lf: T, cr: T)
    requires
        a.len() == 0 || a.last() == lf,
    ensures
        lines_at(a + b, lf, cr) == lines_at(a, lf, cr) + lines_at(b, lf, cr),
    decreases a.len(),
{
    if a.len() == 0 {
        assert(a + b =~= b);
        assert(lines_at(a, lf, cr) + lines_at(b, lf, cr) =~= lines_at(b, lf, cr));
    } else {
        lemma_position(a, lf);
        let i = position(a, lf) as int;
        assert(a[a.len() - 1] == lf);
        assert(i < a.len());
        assert forall|j: int| 0 <= j < i implies (a + b)[j] != lf by {
            assert((a + b)[j] == a[j]);
        }
        lemma_position_is(a + b, lf, i);
        let rest = a.skip(i + 1);
        assert(rest.len() > 0 ==> rest.last() == a.last());
        lemma_lines_of_sum(rest, b, lf, cr);
        assert((a + b).take(i) =~= a.take(i));
        assert((a + b).skip(i + 1) =~= rest + b);
        assert(lines_at(a + b, lf, cr) =~= lines_at(a, lf, cr) + lines_at(b, lf, cr));
    }
}

/// Unicode `White_Space`.
pub open spec fn is_white(c: char) -> bool {
    ||| '\u{9}' <= c <= '\u{d}'
    ||| c == ' '
    ||| c == '\u{85}'
    ||| c == '\u{a0}'
    ||| c == '\u{1680}'
    ||| '\u{2000}' <= c <= '\u{200a}'
    ||| c == '\u{2028}'
    ||| c == '\u{2029}'
    ||| c == '\u{202f}'
    ||| c == '\u{205f}'
    ||| c == '\u{3000}'
}

/// ASCII whitespace: space, tab, line feed, form feed, carriage return.
pub open spec fn is_ascii_white(c: char) -> bool {
    c == ' ' || c == '\t' || c == '\n' || c == '\u{c}' || c == '\r'
}

/// `s` from its first character that is not white space.
pub open spec fn trim_start(s: Seq<char>) -> Seq<char>
    decreases s.len(),
{
    if s.len() > 0 && is_white(s[0]) {
        trim_start(s.drop_first())
    } else {
        s
    }
}

/// `s` up to its last character that is not white space.
pub open spec fn trim_end(s: Seq<char>) -> Seq<char>
    decreases s.len(),
{
    if s.len() > 0 && is_white(s.last()) {
        trim_end(s.drop_last())
    } else {
        s
    }
}

/// `s` without white space at either end.
pub open spec fn trim(s: Seq<char>) -> Seq<char> {
    trim_end(trim_start(s))
}

/// How many characters at the front of `s` are not ASCII whitespace.
pub open spec fn word_len(s: Seq<char>) -> nat
    decreases s.len(),
{
    if s.len() == 0 || is_ascii_white(s[0]) {
        0
    } else {
        1 + word_len(s.drop_first())
    }
}

pub proof fn lemma_word_len(s: Seq<char>)
    ensures
        word_len(s) <= s.len(),
        word_len(s) < s.len() ==> is_ascii_white(s[word_len(s) as int]),
        forall|j: int| 0 <= j < word_len(s) ==> !is_ascii_white(s[j]),
    decreases s.len(),
{
    if s.len() != 0 && !is_ascii_white(s[0]) {
        let t = s.drop_first();
        lemma_word_len(t);
        assert forall|j: int| 0 <= j < word_len(s) implies !is_ascii_white(s[j]) by {
            if j > 0 {
                assert(t[j - 1] == s[j]);
            }
        }
    }
}

pub proof fn lemma_word_len_is(s: Seq<char>, n: int)
    requires
        0 <= n <= s.len(),
        n < s.len() ==> is_ascii_white(s[n]),
        forall|j: int| 0 <= j < n ==> !is_ascii_white(s[j]),
    ensures
        word_len(s) == n,
{
    lemma_word_len(s);
    let w = word_len(s) as int;
    if w < n {
        assert(!is_ascii_white(s[w]));
    } else if n < w {
        assert(!is_ascii_white(s[n]));
    }
}

/// The words of `s`: its runs of characters that are not ASCII whitespace.
pub open spec fn words(s: Seq<char>) -> Seq<Seq<char>>
    decreases s.len(),
{
    if s.len() == 0 {
        seq![]
    } else if is_ascii_white(s[0]) {
        words(s.drop_first())
    } else {
        proof {
            lemma_word_len(s);
        }
        seq![s.take(word_len(s) as int)] + words(s.skip(word_len(s) as int))
    }
}

/// `pieces` one after the other with `sep` between neighbours.
pub open spec fn join(pieces: Seq<Seq<char>>, sep: Seq<char>) -> Seq<char>
    decreases pieces.len(),
{
    if pieces.len() == 0 {
        seq![]
    } else if pieces.len() == 1 {
        pieces[0]
    } else {
        join(pieces.drop_last(), sep) + sep + pieces.last()
    }
}

/// Whether `s` begins with `prefix`.
pub open spec fn starts_with(s: Seq<char>, prefix: Seq<char>) -> bool {
    prefix.len() <= s.len() && s.take(prefix.len() as int) == prefix
}

/// What follows `prefix` in `s`; `None` where `s` does not begin with it.
pub open spec fn after_prefix(s: Seq<char>, prefix: Seq<char>) -> Option<Seq<char>> {
    if starts_with(s, prefix) {
        Some(s.skip(prefix.len() as int))
    } else {
        None
    }
}

/// Whether `s` ends with `suffix`.
pub open spec fn ends_with(s: Seq<char>, suffix: Seq<char>) -> bool {
    suffix.len() <= s.len() && s.skip(s.len() - suffix.len()) == suffix
}

/// The index of the last `x` in `s`, or -1 where there is none.
pub open spec fn last_position<T>(s: Seq<T>, x: T) -> int
    decreases s.len(),
{
    if s.len() == 0 {
        -1
    } else if s.last() == x {
        s.len() - 1
    } else {
        last_position(s.drop_last(), x)
    }
}

/// `s` without any `x` at its end.
pub open spec fn without_trailing(s: Seq<char>, x: char) -> Seq<char>
    decreases s.len(),
{
    if s.len() > 0 && s.last() == x {
        without_trailing(s.drop_last(), x)
    } else {
        s
    }
}

/// The order of strings: by the first character in which they differ, a prefix before what it
/// begins.
pub open spec fn text_le(a: Seq<char>, b: Seq<char>) -> bool
    decreases a.len(),
{
    if a.len() == 0 {
        true
    } else if b.len() == 0 {
        false
    } else if a[0] == b[0] {
        text_le(a.drop_first(), b.drop_first())
    } else {
        a[0] < b[0]
    }
}

/// Two strings compare one way or the other, and both ways only where they are the same.
pub proof fn lemma_text_le_total(a: Seq<char>, b: Seq<char>)
    ensures
        text_le(a, b) || text_le(b, a),
        text_le(a, b) && text_le(b, a) <==> a == b,
    decreases a.len(),
{
    if a.len() > 0 && b.len() > 0 && a[0] == b[0] {
        lemma_text_le_total(a.drop_first(), b.drop_first());
        if a.drop_first() == b.drop_first() {
            assert(a =~= seq![a[0]] + a.drop_first());
            assert(b =~= seq![b[0]] + b.drop_first());
        }
    } else if a.len() == 0 && b.len() == 0 {
        assert(a =~= b);
    }
}

pub proof fn lemma_text_le_transitive(a: Seq<char>, b: Seq<char>, c: Seq<char>)
    requires
        text_le(a, b),
        text_le(b, c),
    ensures
        text_le(a, c),
    decreases a.len(),
{
    if a.len() > 0 && b.len() > 0 && c.len() > 0 && a[0] == b[0] && b[0] == c[0] {
        lemma_text_le_transitive(a.drop_first(), b.drop_first(), c.drop_first());
    }
}

/// Whether `c` is Unicode `White_Space`.
pub fn white(c: char) -> (r: bool)
    ensures
        r == is_white(c),
{
    ('\u{9}' <= c && c <= '\u{d}') || c == ' ' || c == '\u{85}' || c == '\u{a0}' || c
        == '\u{1680}' || ('\u{2000}' <= c && c <= '\u{200a}') || c == '\u{2028}' || c
        == '\u{2029}' || c == '\u{202f}' || c == '\u{205f}' || c == '\u{3000}'
}

/// Whether `c` is ASCII whitespace.
pub fn ascii_white(c: char) -> (r: bool)
    ensures
        r == is_ascii_white(c),
{
    c == ' ' || c == '\t' || c == '\n' || c == '\u{c}' || c == '\r'
}

/// The index of the first `x` in `cs`, or the length of `cs`.
pub fn find_char(cs: &[char], x: char) -> (r: usize)
    ensures
        r == position(cs@, x),
        r <= cs.len(),
{
    let mut i: usize = 0;
    while i < cs.len() && cs[i] != x
        invariant
            i <= cs.len(),
            forall|j: int| 0 <= j < i ==> cs@[j] != x,
        decreases cs.len() - i,
    {
        i += 1;
    }
    proof {
        lemma_position_is(cs@, x, i as int);
    }
    i
}

/// `cs` without white space at its front.
pub fn trim_start_of(cs: &[char]) -> (r: &[char])
    ensures
        r@ == trim_start(cs@),
{
    let mut i: usize = 0;
    assert(cs@.skip(0) =~= cs@);
    while i < cs.len() && white(cs[i])
        invariant
            i <= cs.len(),
            trim_start(cs@.skip(i as int)) == trim_start(cs@),
        decreases cs.len() - i,
    {
        assert(cs@.skip(i as int).drop_first() =~= cs@.skip(i + 1));
        i += 1;
    }
    assert(cs@.skip(i as int) =~= cs@.subrange(i as int, cs@.len() as int));
    slice_subrange(cs, i, cs.len())
}

/// `cs` without white space at its end.
pub fn trim_end_of(cs: &[char]) -> (r: &[char])
    ensures
        r@ == trim_end(cs@),
{
    let mut n: usize = cs.len();
    assert(cs@.take(n as int) =~= cs@);
    while n > 0 && white(cs[n - 1])
        invariant
            n <= cs.len(),
            trim_end(cs@.take(n as int)) == trim_end(cs@),
        decreases n,
    {
        assert(cs@.take(n as int).drop_last() =~= cs@.take(n - 1));
        n -= 1;
    }
    assert(cs@.take(n as int) =~= cs@.subrange(0, n as int));
    slice_subrange(cs, 0, n)
}

/// `cs` without white space at either end.
pub fn trim_of(cs: &[char]) -> (r: &[char])
    ensures
        r@ == trim(cs@),
{
    trim_end_of(trim_start_of(cs))
}

/// One past the index of the last `x` in `cs`, or 0.
pub fn after_last(cs: &[char], x: char) -> (r: usize)
    ensures
        r == last_position(cs@, x) + 1,
        r <= cs.len(),
{
    let mut n: usize = cs.len();
    assert(cs@.take(n as int) =~= cs@);
    while n > 0 && cs[n - 1] != x
        invariant
            n <= cs.len(),
            last_position(cs@.take(n as int), x) == last_position(cs@, x),
        decreases n,
    {
        assert(cs@.take(n as int).drop_last() =~= cs@.take(n - 1));
        n -= 1;
    }
    n
}

/// How many characters of `cs` are left without any `x` at its end.
pub fn len_without_trailing(cs: &[char], x: char) -> (r: usize)
    ensures
        r <= cs.len(),
        cs@.take(r as int) == without_trailing(cs@, x),
{
    let mut n: usize = cs.len();
    assert(cs@.take(n as int) =~= cs@);
    while n > 0 && cs[n - 1] == x
        invariant
            n <= cs.len(),
            without_trailing(cs@.take(n as int), x) == without_trailing(cs@, x),
        decreases n,
    {
        assert(cs@.take(n as int).drop_last() =~= cs@.take(n - 1));
        n -= 1;
    }
    n
}

/// Where the `n`-th word of `cs` begins and ends.
pub fn word_span(cs: &[char], n: usize) -> (r: Option<(usize, usize)>)
    ensures
        match r {
            Some((a, b)) => {
                &&& a <= b <= cs.len()
                &&& n < words(cs@).len()
                &&& cs@.subrange(a as int, b as int) == words(cs@)[n as int]
            },
            None => words(cs@).len() <= n,
        },
{
    let mut at: usize = 0;
    let mut seen: usize = 0;
    assert(cs@.skip(0) =~= cs@);
    assert(words(cs@) =~= words(cs@).skip(0));
    while at < cs.len()
        invariant
            at <= cs.len(),
            seen <= n,
            seen <= words(cs@).len(),
            words(cs@.skip(at as int)) == words(cs@).skip(seen as int),
        decreases cs.len() - at,
    {
        let ghost rest = cs@.skip(at as int);
        if ascii_white(cs[at]) {
            assert(rest.drop_first() =~= cs@.skip(at + 1));
            at += 1;
        } else {
            let start = at;
            while at < cs.len() && !ascii_white(cs[at])
                invariant
                    start <= at <= cs.len(),
                    rest == cs@.skip(start as int),
                    forall|j: int| 0 <= j < at - start ==> !is_ascii_white(rest[j]),
                decreases cs.len() - at,
            {
                assert(rest[at - start] == cs@[at as int]);
                at += 1;
            }
            proof {
                if at < cs.len() {
                    assert(rest[at - start] == cs@[at as int]);
                }
                lemma_word_len_is(rest, at - start);
                assert(at > start);
                assert(rest.take(at - start) =~= cs@.subrange(start as int, at as int));
                assert(rest.skip(at - start) =~= cs@.skip(at as int));
                assert(words(rest)[0] == rest.take(at - start));
                assert(words(rest) == words(cs@).skip(seen as int));
                assert(words(rest).len() == words(cs@).len() - seen);
                assert(words(rest)[0] == words(cs@)[seen as int]);
            }
            if seen == n {
                return Some((start, at));
            }
            seen += 1;
            assert(words(cs@.skip(at as int)) =~= words(rest).skip(1));
            assert(words(cs@).skip(seen as int) =~= words(cs@).skip(seen - 1).skip(1));
        }
    }
    assert(cs@.skip(at as int) =~= seq![]);
    assert(words(cs@).skip(seen as int).len() == 0);
    None
}

/// Whether `cs` ends with `suffix`.
pub fn text_ends_with(cs: &[char], suffix: &str) -> (r: bool)
    ensures
        r == ends_with(cs@, suffix@),
{
    let p = chars_of(suffix);
    if cs.len() < p.len() {
        return false;
    }
    assert(cs@.subrange(cs@.len() - p@.len(), cs@.len() as int) =~= cs@.skip(
        cs@.len() - p@.len(),
    ));
    same_chars(slice_subrange(cs, cs.len() - p.len(), cs.len()), p.as_slice())
}

/// The pieces of `cs` between occurrences of `x`.
pub fn split_of<'a>(cs: &'a [char], x: char) -> (r: Vec<&'a [char]>)
    ensures
        views(r@) == split(cs@, x),
{
    let mut out: Vec<&'a [char]> = Vec::new();
    let mut rest = cs;
    assert(views(out@) =~= seq![]);
    loop
        invariant
            views(out@) + split(rest@, x) == split(cs@, x),
        decreases rest@.len(),
    {
        let i = find_char(rest, x);
        let ghost before = views(out@);
        if i == rest.len() {
            out.push(rest);
            assert(views(out@) =~= before.push(rest@));
            assert(before + split(rest@, x) =~= before.push(rest@));
            return out;
        }
        out.push(slice_subrange(rest, 0, i));
        assert(rest@.subrange(0, i as int) =~= rest@.take(i as int));
        assert(rest@.subrange(i + 1, rest@.len() as int) =~= rest@.skip(i + 1));
        assert(views(out@) =~= before.push(rest@.take(i as int)));
        assert(views(out@) + split(rest@.skip(i + 1), x) =~= before + split(rest@, x));
        rest = slice_subrange(rest, i + 1, rest.len());
    }
}

/// The lines of `cs`.
pub fn lines_of<'a>(cs: &'a [char]) -> (r: Vec<&'a [char]>)
    ensures
        views(r@) == lines(cs@),
{
    let mut out: Vec<&'a [char]> = Vec::new();
    let mut rest = cs;
    assert(views(out@) =~= seq![]);
    while rest.len() > 0
        invariant
            views(out@) + lines(rest@) == lines(cs@),
        decreases rest@.len(),
    {
        let i = find_char(rest, '\n');
        let ghost before = views(out@);
        if i == rest.len() {
            out.push(rest);
            assert(views(out@) =~= before.push(rest@));
            assert(before + lines(rest@) =~= before.push(rest@));
            return out;
        }
        let n = if i > 0 && rest[i - 1] == '\r' {
            i - 1
        } else {
            i
        };
        out.push(slice_subrange(rest, 0, n));
        assert(rest@.subrange(0, n as int) =~= without_last(rest@.take(i as int), '\r'));
        assert(rest@.subrange(i + 1, rest@.len() as int) =~= rest@.skip(i + 1));
        assert(views(out@) =~= before.push(without_last(rest@.take(i as int), '\r')));
        assert(views(out@) + lines(rest@.skip(i + 1)) =~= before + lines(rest@));
        rest = slice_subrange(rest, i + 1, rest.len());
    }
    assert(views(out@) + lines(rest@) =~= views(out@));
    out
}

/// The words of `cs`.
pub fn words_of<'a>(cs: &'a [char]) -> (r: Vec<&'a [char]>)
    ensures
        views(r@) == words(cs@),
{
    let mut out: Vec<&'a [char]> = Vec::new();
    let mut rest = cs;
    assert(views(out@) =~= seq![]);
    while rest.len() > 0
        invariant
            views(out@) + words(rest@) == words(cs@),
        decreases rest@.len(),
    {
        let ghost before = views(out@);
        if ascii_white(rest[0]) {
            assert(rest@.subrange(1, rest@.len() as int) =~= rest@.drop_first());
            rest = slice_subrange(rest, 1, rest.len());
        } else {
            let mut n: usize = 1;
            while n < rest.len() && !ascii_white(rest[n])
                invariant
                    1 <= n <= rest.len(),
                    forall|j: int| 0 <= j < n ==> !is_ascii_white(rest@[j]),
                decreases rest.len() - n,
            {
                n += 1;
            }
            proof {
                lemma_word_len_is(rest@, n as int);
            }
            out.push(slice_subrange(rest, 0, n));
            assert(rest@.subrange(0, n as int) =~= rest@.take(n as int));
            assert(rest@.subrange(n as int, rest@.len() as int) =~= rest@.skip(n as int));
            assert(views(out@) =~= before.push(rest@.take(n as int)));
            assert(views(out@) + words(rest@.skip(n as int)) =~= before + words(rest@));
            rest = slice_subrange(rest, n, rest.len());
        }
    }
    assert(views(out@) + words(rest@) =~= views(out@));
    out
}

/// Words on either side of a space are the words of the whole.
pub proof fn lemma_words_split(a: Seq<char>, c: char, b: Seq<char>)
    requires
        is_ascii_white(c),
    ensures
        words(a + seq![c] + b) == words(a) + words(b),
    decreases a.len(),
{
    let s = a + seq![c] + b;
    if a.len() == 0 {
        assert(s.drop_first() =~= b);
        assert(words(a) + words(b) =~= words(b));
    } else if is_ascii_white(a[0]) {
        assert(s.drop_first() =~= a.drop_first() + seq![c] + b);
        lemma_words_split(a.drop_first(), c, b);
    } else {
        lemma_word_len(a);
        let n = word_len(a) as int;
        assert(n > 0);
        assert forall|j: int| 0 <= j < n implies !is_ascii_white(s[j]) by {
            assert(s[j] == a[j]);
        }
        assert(n < s.len() && is_ascii_white(s[n]));
        lemma_word_len_is(s, n);
        assert(s.take(n) =~= a.take(n));
        assert(s.skip(n) =~= a.skip(n) + seq![c] + b);
        lemma_words_split(a.skip(n), c, b);
        assert(words(s) =~= words(a) + words(b));
    }
}

/// Whether `w` is a word: not empty, and without ASCII whitespace.
pub open spec fn is_word(w: Seq<char>) -> bool {
    w.len() > 0 && forall|i: int| 0 <= i < w.len() ==> !is_ascii_white(#[trigger] w[i])
}

/// What `words` finds are words.
pub proof fn lemma_words_are_words(s: Seq<char>)
    ensures
        forall|i: int| 0 <= i < words(s).len() ==> is_word(#[trigger] words(s)[i]),
    decreases s.len(),
{
    if s.len() > 0 {
        if is_ascii_white(s[0]) {
            lemma_words_are_words(s.drop_first());
            assert(words(s) == words(s.drop_first()));
        } else {
            lemma_word_len(s);
            let n = word_len(s) as int;
            assert forall|i: int| 0 <= i < s.take(n).len() implies !is_ascii_white(
                #[trigger] s.take(n)[i],
            ) by {
                assert(s.take(n)[i] == s[i]);
            }
            lemma_words_are_words(s.skip(n));
            assert forall|i: int| 0 <= i < words(s).len() implies is_word(
                #[trigger] words(s)[i],
            ) by {
                if i > 0 {
                    assert(words(s)[i] == words(s.skip(n))[i - 1]);
                }
            }
        }
    }
}

/// Words joined by single spaces are read back as those words.
pub proof fn lemma_words_of_join(ws: Seq<Seq<char>>)
    requires
        forall|i: int| 0 <= i < ws.len() ==> is_word(#[trigger] ws[i]),
    ensures
        words(join(ws, seq![' '])) == ws,
    decreases ws.len(),
{
    if ws.len() == 0 {
        assert(words(join(ws, seq![' '])) =~= ws);
    } else {
        let last = ws.last();
        assert(is_word(ws[ws.len() - 1]));
        lemma_word_len_is(last, last.len() as int);
        assert(last.take(last.len() as int) =~= last);
        assert(last.skip(last.len() as int) =~= seq![]);
        assert(words(seq![]) =~= seq![]);
        assert(!is_ascii_white(last[0]));
        assert(words(last) =~= seq![last]);
        if ws.len() == 1 {
            assert(ws =~= seq![last]);
        } else {
            let front = ws.drop_last();
            assert forall|i: int| 0 <= i < front.len() implies is_word(#[trigger] front[i]) by {
                assert(front[i] == ws[i]);
            }
            lemma_words_of_join(front);
            lemma_words_split(join(front, seq![' ']), ' ', last);
            assert(front + seq![last] =~= ws);
        }
    }
}

/// `pieces` joined with `sep` between neighbours.
pub fn join_of(pieces: &[&[char]], sep: char) -> (r: Vec<char>)
    ensures
        r@ == join(views(pieces@), seq![sep]),
{
    let mut out: Vec<char> = Vec::new();
    let mut i: usize = 0;
    let ghost all = views(pieces@);
    assert(all.take(0) =~= seq![]);
    while i < pieces.len()
        invariant
            i <= pieces.len(),
            all == views(pieces@),
            out@ == join(all.take(i as int), seq![sep]),
        decreases pieces.len() - i,
    {
        let ghost before = out@;
        if i > 0 {
            out.push(sep);
        }
        let ghost start = out@;
        push_all(&mut out, pieces[i]);
        assert(all.take(i + 1).drop_last() =~= all.take(i as int));
        assert(all.take(i + 1).last() == pieces@[i as int]@);
        assert(start =~= if i > 0 {
            before + seq![sep]
        } else {
            seq![]
        });
        assert(out@ =~= join(all.take(i + 1), seq![sep]));
        i += 1;
    }
    assert(all.take(i as int) =~= all);
    out
}

/// Appends `more` to `out`.
pub fn push_all(out: &mut Vec<char>, more: &[char])
    ensures
        final(out)@ == old(out)@ + more@,
{
    let mut i: usize = 0;
    assert(out@ =~= out@ + more@.take(0));
    while i < more.len()
        invariant
            i <= more.len(),
            out@ == old(out)@ + more@.take(i as int),
        decreases more.len() - i,
    {
        out.push(more[i]);
        assert(more@.take(i + 1) =~= more@.take(i as int).push(more@[i as int]));
        assert(out@ =~= old(out)@ + more@.take(i + 1));
        i += 1;
    }
    assert(more@.take(i as int) =~= more@);
}

/// Whether `a` and `b` are the same characters.
pub fn same_chars(a: &[char], b: &[char]) -> (r: bool)
    ensures
        r == (a@ == b@),
{
    if a.len() != b.len() {
        return false;
    }
    let mut i: usize = 0;
    while i < a.len()
        invariant
            i <= a.len(),
            a.len() == b.len(),
            forall|j: int| 0 <= j < i ==> a@[j] == b@[j],
        decreases a.len() - i,
    {
        if a[i] != b[i] {
            return false;
        }
        i += 1;
    }
    assert(a@ =~= b@);
    true
}

/// Whether `a` and `b` are the same text.
pub fn same_text(a: &str, b: &str) -> (r: bool)
    ensures
        r == (a@ == b@),
{
    same_chars(chars_of(a).as_slice(), chars_of(b).as_slice())
}

/// Whether `cs` is the text `s`.
pub fn is_text(cs: &[char], s: &str) -> (r: bool)
    ensures
        r == (cs@ == s@),
{
    same_chars(cs, chars_of(s).as_slice())
}

/// What follows `prefix` in `cs`.
pub fn after_prefix_of<'a>(cs: &'a [char], prefix: &str) -> (r: Option<&'a [char]>)
    ensures
        match r {
            Some(rest) => after_prefix(cs@, prefix@) == Some(rest@),
            None => after_prefix(cs@, prefix@) is None,
        },
{
    let p = chars_of(prefix);
    if cs.len() < p.len() {
        return None;
    }
    let head = slice_subrange(cs, 0, p.len());
    assert(cs@.subrange(0, p@.len() as int) =~= cs@.take(p@.len() as int));
    if same_chars(head, p.as_slice()) {
        assert(cs@.subrange(p@.len() as int, cs@.len() as int) =~= cs@.skip(p@.len() as int));
        Some(slice_subrange(cs, p.len(), cs.len()))
    } else {
        None
    }
}

/// Whether `a` comes before `b` or is the same text.
pub fn text_before(a: &str, b: &str) -> (r: bool)
    ensures
        r == text_le(a@, b@),
{
    let x = chars_of(a);
    let y = chars_of(b);
    let mut i: usize = 0;
    assert(x@.skip(0) =~= x@);
    assert(y@.skip(0) =~= y@);
    loop
        invariant
            i <= x.len(),
            i <= y.len(),
            text_le(x@.skip(i as int), y@.skip(i as int)) == text_le(x@, y@),
            x@ == a@,
            y@ == b@,
        decreases x.len() - i,
    {
        if i == x.len() {
            return true;
        }
        if i == y.len() {
            return false;
        }
        if x[i] != y[i] {
            return x[i] < y[i];
        }
        assert(x@.skip(i as int).drop_first() =~= x@.skip(i + 1));
        assert(y@.skip(i as int).drop_first() =~= y@.skip(i + 1));
        i += 1;
    }
}

/// Whether every character of `s` is white space.
pub open spec fn all_white(s: Seq<char>) -> bool {
    forall|i: int| 0 <= i < s.len() ==> is_white(#[trigger] s[i])
}

/// White space at the ends of a text is cut, and nothing else: what is left neither begins nor
/// ends with white space.
pub proof fn trimming_cuts_white_ends(a: Seq<char>, s: Seq<char>, b: Seq<char>)
    requires
        all_white(a),
        all_white(b),
        s.len() > 0 ==> !is_white(s[0]) && !is_white(s.last()),
    ensures
        trim(a + s + b) == s,
        trim_start(a + s) == s,
        trim_end(s + b) == s,
{
    lemma_trim_start_skips(a, s);
    lemma_trim_end_skips(s, b);
    lemma_trim_start_skips(a, s + b);
    assert(a + s + b =~= a + (s + b));
    if s.len() == 0 {
        assert(s + b =~= b);
        lemma_trim_start_skips(b, s);
        assert(b + s =~= b);
        lemma_trim_end_skips(s, s);
        assert(s + s =~= s);
    } else {
        assert((s + b)[0] == s[0]);
    }
}

/// White space at the front is cut whatever follows it.
pub proof fn lemma_trim_start_skips(a: Seq<char>, s: Seq<char>)
    requires
        all_white(a),
    ensures
        trim_start(a + s) == trim_start(s),
    decreases a.len(),
{
    if a.len() == 0 {
        assert(a + s =~= s);
    } else {
        assert(is_white(a[0]));
        assert((a + s).drop_first() =~= a.drop_first() + s);
        assert forall|i: int| 0 <= i < a.drop_first().len() implies is_white(
            #[trigger] a.drop_first()[i],
        ) by {
            assert(is_white(a[i + 1]));
        }
        lemma_trim_start_skips(a.drop_first(), s);
    }
}

proof fn lemma_trim_end_skips(s: Seq<char>, b: Seq<char>)
    requires
        all_white(b),
    ensures
        trim_end(s + b) == trim_end(s),
    decreases b.len(),
{
    if b.len() == 0 {
        assert(s + b =~= s);
    } else {
        assert(is_white(b[b.len() - 1]));
        assert((s + b).drop_last() =~= s + b.drop_last());
        assert forall|i: int| 0 <= i < b.drop_last().len() implies is_white(
            #[trigger] b.drop_last()[i],
        ) by {
            assert(is_white(b[i]));
        }
        lemma_trim_end_skips(s, b.drop_last());
    }
}

/// Every text is some white space, its trimmed form, and some white space.
pub proof fn every_text_is_its_trimmed_form_padded(s: Seq<char>)
    ensures
        exists|i: int, j: int|
            #![trigger s.subrange(i, j)]
            0 <= i <= j <= s.len() && trim(s) == s.subrange(i, j) && all_white(s.take(i))
                && all_white(s.skip(j)) && (i < j ==> !is_white(s[i]) && !is_white(s[j - 1])),
{
    let n = lemma_trim_start_is(s);
    let t = s.skip(n);
    let m = lemma_trim_end_is(t);
    assert(t.take(m) =~= s.subrange(n, n + m));
    assert(s.skip(n + m) =~= t.skip(m));
    if m > 0 {
        assert(t[0] == s[n] && t[m - 1] == s[n + m - 1]);
    }
}

proof fn lemma_trim_start_is(s: Seq<char>) -> (n: int)
    ensures
        0 <= n <= s.len(),
        trim_start(s) == s.skip(n),
        all_white(s.take(n)),
        n < s.len() ==> !is_white(s[n]),
    decreases s.len(),
{
    if s.len() > 0 && is_white(s[0]) {
        let t = s.drop_first();
        let m = lemma_trim_start_is(t);
        assert(t.skip(m) =~= s.skip(m + 1));
        assert forall|i: int| 0 <= i < m + 1 implies is_white(#[trigger] s.take(m + 1)[i]) by {
            if i > 0 {
                assert(is_white(t.take(m)[i - 1]));
            }
        }
        assert(m < t.len() ==> t[m] == s[m + 1]);
        m + 1
    } else {
        assert(s.skip(0) =~= s);
        0
    }
}

proof fn lemma_trim_end_is(s: Seq<char>) -> (n: int)
    ensures
        0 <= n <= s.len(),
        trim_end(s) == s.take(n),
        all_white(s.skip(n)),
        n > 0 ==> !is_white(s[n - 1]),
    decreases s.len(),
{
    if s.len() > 0 && is_white(s.last()) {
        let t = s.drop_last();
        let n = lemma_trim_end_is(t);
        assert(t.take(n) =~= s.take(n));
        assert forall|i: int| 0 <= i < s.skip(n).len() implies is_white(#[trigger] s.skip(n)[i]) by {
            if i < t.skip(n).len() {
                assert(is_white(t.skip(n)[i]));
            }
        }
        n
    } else {
        assert(s.take(s.len() as int) =~= s);
        s.len() as int
    }
}

/// A word by itself is its only word, and white space has none.
pub proof fn a_word_is_its_only_word(w: Seq<char>)
    requires
        is_word(w),
    ensures
        words(w) == seq![w],
{
    lemma_word_len_is(w, w.len() as int);
    assert(!is_ascii_white(w[0]));
    assert(w.take(w.len() as int) =~= w);
    assert(w.skip(w.len() as int) =~= seq![]);
    assert(words(seq![]) =~= seq![]);
    assert(words(w) =~= seq![w]);
}

/// A text of nothing but ASCII whitespace has no words.
pub proof fn white_space_has_no_words(s: Seq<char>)
    requires
        forall|i: int| 0 <= i < s.len() ==> is_ascii_white(#[trigger] s[i]),
    ensures
        words(s) == Seq::<Seq<char>>::empty(),
    decreases s.len(),
{
    if s.len() > 0 {
        assert(is_ascii_white(s[0]));
        assert forall|i: int| 0 <= i < s.drop_first().len() implies is_ascii_white(
            #[trigger] s.drop_first()[i],
        ) by {
            assert(is_ascii_white(s[i + 1]));
        }
        white_space_has_no_words(s.drop_first());
    }
}

/// White space between two texts parts their words, however much of it there is.
pub proof fn white_space_parts_words(a: Seq<char>, gap: Seq<char>, b: Seq<char>)
    requires
        gap.len() > 0,
        forall|i: int| 0 <= i < gap.len() ==> is_ascii_white(#[trigger] gap[i]),
    ensures
        words(a + gap + b) == words(a) + words(b),
{
    let rest = gap.drop_first();
    assert(is_ascii_white(gap[0]));
    assert(a + gap + b =~= a + seq![gap[0]] + (rest + b));
    lemma_words_split(a, gap[0], rest + b);
    lemma_words_skip(rest, b, gap);
}

proof fn lemma_words_skip(a: Seq<char>, s: Seq<char>, gap: Seq<char>)
    requires
        a.len() < gap.len(),
        forall|i: int| 0 <= i < gap.len() ==> is_ascii_white(#[trigger] gap[i]),
        a == gap.skip(gap.len() - a.len()),
    ensures
        words(a + s) == words(s),
    decreases a.len(),
{
    if a.len() == 0 {
        assert(a + s =~= s);
    } else {
        assert(a[0] == gap[gap.len() - a.len()]);
        assert((a + s).drop_first() =~= a.drop_first() + s);
        assert(a.drop_first() =~= gap.skip(gap.len() - a.drop_first().len()));
        lemma_words_skip(a.drop_first(), s, gap);
    }
}

/// Whether `x` occurs in `s`.
pub open spec fn occurs<T>(s: Seq<T>, x: T) -> bool {
    exists|i: int| 0 <= i < s.len() && #[trigger] s[i] == x
}

/// Splitting at `x` parts a text at its first `x`: what precedes it is the first piece.
pub proof fn splitting_parts_at_the_first<T>(a: Seq<T>, x: T, b: Seq<T>)
    requires
        !occurs(a, x),
    ensures
        split(a + seq![x] + b, x) == seq![a] + split(b, x),
        split(a, x) == seq![a],
{
    let s = a + seq![x] + b;
    let n = a.len() as int;
    assert forall|j: int| 0 <= j < n implies s[j] != x by {
        assert(s[j] == a[j]);
    }
    assert(s[n] == x);
    lemma_position_is(s, x, n);
    assert(s.take(n) =~= a);
    assert(s.skip(n + 1) =~= b);
    lemma_position_is(a, x, n);
}

/// A line feed ends a line, and a carriage return before it goes with it; without a line feed a
/// text that is not empty is one line.
pub proof fn a_line_feed_ends_a_line(line: Seq<char>, rest: Seq<char>)
    requires
        !occurs(line, '\n'),
    ensures
        line.len() > 0 ==> lines(line) == seq![line],
        lines(Seq::empty()) == Seq::<Seq<char>>::empty(),
        (line.len() == 0 || line.last() != '\r') ==> lines(line.push('\n') + rest) == seq![line]
            + lines(rest),
        lines(line.push('\r').push('\n') + rest) == seq![line] + lines(rest),
{
    let n = line.len() as int;
    assert forall|j: int| 0 <= j < n implies line[j] != '\n' by {}
    lemma_position_is(line, '\n', n);
    let s = line.push('\n') + rest;
    assert forall|j: int| 0 <= j < n implies s[j] != '\n' by {
        assert(s[j] == line[j]);
    }
    lemma_position_is(s, '\n', n);
    assert(s.take(n) =~= line);
    assert(s.skip(n + 1) =~= rest);
    let t = line.push('\r').push('\n') + rest;
    assert forall|j: int| 0 <= j < n + 1 implies t[j] != '\n' by {
        if j < n {
            assert(t[j] == line[j]);
        }
    }
    lemma_position_is(t, '\n', n + 1);
    assert(t.take(n + 1) =~= line.push('\r'));
    assert(t.take(n + 1).drop_last() =~= line);
    assert(t.skip(n + 2) =~= rest);
}

/// Texts rank as dictionaries order them: a beginning of a text before the text, and otherwise by
/// the first character in which they differ.
pub proof fn texts_rank_by_their_first_difference(a: Seq<char>, b: Seq<char>)
    ensures
        text_le(a, b) <==> exists|n: int|
            #![trigger a.take(n)]
            0 <= n <= a.len() && n <= b.len() && a.take(n) == b.take(n) && (n == a.len() || (n
                < b.len() && a[n] < b[n])),
    decreases a.len(),
{
    if a.len() == 0 {
        assert(a.take(0) =~= b.take(0));
    } else if b.len() > 0 && a[0] == b[0] {
        let (ra, rb) = (a.drop_first(), b.drop_first());
        texts_rank_by_their_first_difference(ra, rb);
        if text_le(a, b) {
            let n = choose|n: int|
                #![trigger ra.take(n)]
                0 <= n <= ra.len() && n <= rb.len() && ra.take(n) == rb.take(n) && (n == ra.len()
                    || (n < rb.len() && ra[n] < rb[n]));
            assert(a.take(n + 1) =~= seq![a[0]] + ra.take(n));
            assert(b.take(n + 1) =~= seq![b[0]] + rb.take(n));
            assert(a.take(n + 1) == b.take(n + 1));
        }
        if exists|n: int|
            #![trigger a.take(n)]
            0 <= n <= a.len() && n <= b.len() && a.take(n) == b.take(n) && (n == a.len() || (n
                < b.len() && a[n] < b[n])) {
            let n = choose|n: int|
                #![trigger a.take(n)]
                0 <= n <= a.len() && n <= b.len() && a.take(n) == b.take(n) && (n == a.len() || (n
                    < b.len() && a[n] < b[n]));
            assert(n > 0);
            assert(ra.take(n - 1) =~= a.take(n).drop_first());
            assert(rb.take(n - 1) =~= b.take(n).drop_first());
        }
    } else if b.len() > 0 {
        assert(a.take(0) =~= b.take(0));
        assert forall|n: int|
            #![trigger a.take(n)]
            0 < n <= a.len() && n <= b.len() implies a.take(n) != b.take(n) by {
            assert(a.take(n)[0] == a[0] && b.take(n)[0] == b[0]);
        }
    }
}

/// What follows a prefix is the rest, and only a text that begins with it has such a rest.
pub proof fn a_prefix_and_its_rest_are_the_text(s: Seq<char>, prefix: Seq<char>, rest: Seq<char>)
    ensures
        after_prefix(s, prefix) == Some(rest) <==> s == prefix + rest,
{
    if s == prefix + rest {
        assert(s.take(prefix.len() as int) =~= prefix);
        assert(s.skip(prefix.len() as int) =~= rest);
    }
    if after_prefix(s, prefix) == Some(rest) {
        assert(s =~= s.take(prefix.len() as int) + s.skip(prefix.len() as int));
    }
}

/// A text ends with a suffix exactly where it is something and then the suffix.
pub proof fn a_suffix_ends_the_text(s: Seq<char>, suffix: Seq<char>)
    ensures
        ends_with(s, suffix) <==> exists|a: Seq<char>| s == #[trigger] (a + suffix),
{
    if ends_with(s, suffix) {
        let a = s.take(s.len() - suffix.len());
        assert(s =~= a + suffix);
    }
    if exists|a: Seq<char>| s == #[trigger] (a + suffix) {
        let a = choose|a: Seq<char>| s == #[trigger] (a + suffix);
        assert(s.skip(s.len() - suffix.len()) =~= suffix);
    }
}

/// The last occurrence is an occurrence, with none after it.
pub proof fn nothing_follows_the_last<T>(a: Seq<T>, x: T, b: Seq<T>)
    requires
        !occurs(b, x),
    ensures
        last_position(a + seq![x] + b, x) == a.len(),
        last_position(b, x) == -1,
    decreases b.len(),
{
    let s = a + seq![x] + b;
    if b.len() == 0 {
        assert(s.last() == x);
    } else {
        let c = b.drop_last();
        assert(b[b.len() - 1] != x);
        assert(s.last() == b.last());
        assert(s.drop_last() =~= a + seq![x] + c);
        if occurs(c, x) {
            let i = choose|i: int| 0 <= i < c.len() && #[trigger] c[i] == x;
            assert(b[i] == x);
        }
        nothing_follows_the_last(a, x, c);
    }
}

/// A row of `x` at the end is cut, and nothing else.
pub proof fn only_the_trailing_are_cut(s: Seq<char>, x: char, tail: Seq<char>)
    requires
        s.len() == 0 || s.last() != x,
        forall|i: int| 0 <= i < tail.len() ==> #[trigger] tail[i] == x,
    ensures
        without_trailing(s + tail, x) == s,
    decreases tail.len(),
{
    if tail.len() == 0 {
        assert(s + tail =~= s);
    } else {
        assert(tail[tail.len() - 1] == x);
        assert((s + tail).drop_last() =~= s + tail.drop_last());
        only_the_trailing_are_cut(s, x, tail.drop_last());
    }
}

/// A joined list begins with its first piece, and each further piece stands after a separator.
pub proof fn pieces_stand_between_separators(
    pieces: Seq<Seq<char>>,
    sep: Seq<char>,
    last: Seq<char>,
)
    ensures
        join(Seq::empty(), sep) == Seq::<char>::empty(),
        join(seq![last], sep) == last,
        pieces.len() > 0 ==> join(pieces.push(last), sep) == join(pieces, sep) + sep + last,
{
    assert(pieces.push(last).drop_last() =~= pieces);
}

/// What stands for strings and slices stands for each of them, in order.
pub proof fn models_of_lists_hold_every_element(
    pieces: Seq<&[char]>,
    strings: Seq<String>,
    s: String,
)
    ensures
        views(pieces).len() == pieces.len(),
        forall|i: int| 0 <= i < pieces.len() ==> #[trigger] views(pieces)[i] == pieces[i]@,
        texts(strings).len() == strings.len(),
        forall|i: int| 0 <= i < strings.len() ==> #[trigger] texts(strings)[i] == strings[i]@,
        opt_text(Some(s)) == Some(s@),
        opt_text(None) is None,
{
}

/// ASCII white space is the space and four control characters, each of them white space; beyond
/// ASCII, white space is the next-line and no-break characters and the separators of Unicode.
pub proof fn white_space_by_its_codes(c: char)
    ensures
        is_ascii_white(c) <==> (c as int == 0x20 || c as int == 0x9 || c as int == 0xa || c as int
            == 0xc || c as int == 0xd),
        is_ascii_white(c) ==> is_white(c),
        c as int <= 0x7f ==> (is_white(c) <==> is_ascii_white(c) || c as int == 0xb),
        c as int > 0x7f ==> (is_white(c) <==> (c as int == 0x85 || c as int == 0xa0 || c as int
            == 0x1680 || 0x2000 <= c as int <= 0x200a || c as int == 0x2028 || c as int == 0x2029
            || c as int == 0x202f || c as int == 0x205f || c as int == 0x3000)),
{
}

} // verus!
