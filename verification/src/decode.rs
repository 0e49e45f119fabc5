//! Bytes to lines of text.
//!
//! In UTF-8 a line feed is a byte of its own, so each line is decoded by itself: bytes that are
//! not UTF-8 cost their own line and no other.

use vstd::prelude::*;
use vstd::slice::slice_subrange;
use vstd::utf8::{
    decode_first_scalar, decode_utf8, decode_utf8_split,
    is_char_boundary_iff_not_is_continuation_byte, is_continuation_byte, length_of_first_scalar,
    pop_first_scalar, valid_utf8, valid_utf8_split,
};
use crate::text::{
    chars_of, lemma_lines_of_sum, lemma_position, lemma_position_is, lines, lines_at, lossy_text,
    position, utf8_lossy, views, without_last,
};

verus! {

/// The lines of a byte sequence, not yet decoded.
pub open spec fn raw_lines(bytes: Seq<u8>) -> Seq<Seq<u8>> {
    lines_at(bytes, 10u8, 13u8)
}

/// The lines of a byte sequence, each decoded by itself.
pub open spec fn lossy_lines(bytes: Seq<u8>) -> Seq<Seq<char>> {
    Seq::new(raw_lines(bytes).len(), |i: int| utf8_lossy(raw_lines(bytes)[i]))
}

/// Whether `bytes` are empty or end at a line feed.
pub open spec fn whole_lines(bytes: Seq<u8>) -> bool {
    bytes.len() == 0 || bytes.last() == 10u8
}

/// Whole lines with more bytes after them decode to the lines of both, whatever the bytes.
pub proof fn lines_decode_independently(a: Seq<u8>, b: Seq<u8>)
    requires
        whole_lines(a),
    ensures
        lossy_lines(a + b) == lossy_lines(a) + lossy_lines(b),
{
    lemma_lines_of_sum(a, b, 10u8, 13u8);
    assert(lossy_lines(a + b) =~= lossy_lines(a) + lossy_lines(b));
}

/// The first character of valid UTF-8 is a given ASCII character exactly where its first byte is
/// that character's.
proof fn lemma_first_ascii(bytes: Seq<u8>, x: u8)
    requires
        valid_utf8(bytes),
        bytes.len() > 0,
        x < 128,
    ensures
        decode_first_scalar(bytes) as char == x as char <==> bytes[0] == x,
        bytes[0] == x ==> length_of_first_scalar(bytes) == 1,
{
    let b = bytes[0];
    assert(b <= 0x7f ==> (b & 0x7f) as u32 == b as u32) by (bit_vector);
    if b > 0x7f {
        let (c, d) = (bytes[1], bytes[2]);
        assert((((b & 0x1f) as u32) << 6) | (c & 0x3f) as u32 <= 0x7ff) by (bit_vector);
        assert((((b & 0x0f) as u32) << 12) | (((c & 0x3f) as u32) << 6) | (d & 0x3f) as u32
            <= 0xffff) by (bit_vector);
        let scalar = decode_first_scalar(bytes);
        assert(0x80 <= scalar <= 0x10ffff);
        assert(!(0xd800 <= scalar <= 0xdfff));
    }
}

/// Valid UTF-8 without a given ASCII byte decodes to a text without that character.
proof fn lemma_absent_ascii(bytes: Seq<u8>, x: u8)
    requires
        valid_utf8(bytes),
        x < 128,
        forall|i: int| 0 <= i < bytes.len() ==> bytes[i] != x,
    ensures
        forall|i: int| 0 <= i < decode_utf8(bytes).len() ==> decode_utf8(bytes)[i] != x as char,
        bytes.len() > 0 ==> decode_utf8(bytes).len() > 0,
    decreases bytes.len(),
{
    if bytes.len() > 0 {
        let rest = pop_first_scalar(bytes);
        lemma_first_ascii(bytes, x);
        lemma_absent_ascii(rest, x);
        let all = decode_utf8(bytes);
        assert forall|i: int| 0 <= i < all.len() implies all[i] != x as char by {
            if i > 0 {
                assert(all[i] == decode_utf8(rest)[i - 1]);
            }
        }
    }
}

/// Valid UTF-8 splits around an ASCII byte into valid UTF-8, and decodes so.
proof fn lemma_split_at_ascii(bytes: Seq<u8>, i: int)
    requires
        valid_utf8(bytes),
        0 <= i < bytes.len(),
        bytes[i] < 128,
    ensures
        valid_utf8(bytes.take(i)),
        valid_utf8(bytes.skip(i + 1)),
        decode_utf8(bytes) == decode_utf8(bytes.take(i)).push(bytes[i] as char) + decode_utf8(
            bytes.skip(i + 1),
        ),
{
    is_char_boundary_iff_not_is_continuation_byte(bytes, i);
    assert(!is_continuation_byte(bytes[i]));
    valid_utf8_split(bytes, i);
    decode_utf8_split(bytes, i);
    let front = bytes.subrange(0, i);
    let back = bytes.subrange(i, bytes.len() as int);
    assert(front =~= bytes.take(i));
    lemma_first_ascii(back, bytes[i]);
    assert(pop_first_scalar(back) =~= bytes.skip(i + 1));
    assert(decode_utf8(bytes) =~= decode_utf8(front).push(bytes[i] as char) + decode_utf8(
        bytes.skip(i + 1),
    ));
}

/// The last character of valid UTF-8 is a given ASCII character exactly where its last byte is
/// that character's.
proof fn lemma_last_ascii(bytes: Seq<u8>, x: u8)
    requires
        valid_utf8(bytes),
        x < 128,
    ensures
        valid_utf8(without_last(bytes, x)),
        without_last(decode_utf8(bytes), x as char) == decode_utf8(without_last(bytes, x)),
    decreases bytes.len(),
{
    if bytes.len() > 0 && bytes.last() == x {
        let n = bytes.len() - 1;
        lemma_split_at_ascii(bytes, n);
        assert(bytes.take(n) =~= bytes.drop_last());
        assert(bytes.skip(n + 1) =~= seq![]);
        assert(decode_utf8(bytes.skip(n + 1)) =~= seq![]);
        assert(decode_utf8(bytes) =~= decode_utf8(bytes.drop_last()).push(x as char));
        assert(decode_utf8(bytes).drop_last() =~= decode_utf8(bytes.drop_last()));
    } else if bytes.len() > 0 {
        lemma_last_differs(bytes, x);
    }
}

proof fn lemma_last_differs(bytes: Seq<u8>, x: u8)
    requires
        valid_utf8(bytes),
        bytes.len() > 0,
        bytes.last() != x,
        x < 128,
    ensures
        decode_utf8(bytes).len() > 0,
        decode_utf8(bytes).last() != x as char,
    decreases bytes.len(),
{
    let rest = pop_first_scalar(bytes);
    lemma_first_ascii(bytes, x);
    if rest.len() > 0 {
        assert(rest.last() == bytes.last());
        lemma_last_differs(rest, x);
        assert(decode_utf8(bytes).last() == decode_utf8(rest).last());
    } else {
        assert(decode_utf8(rest) =~= seq![]);
    }
}

/// Decoding line by line is decoding the whole, where the whole is UTF-8: every line is UTF-8,
/// and the lines are those of the decoded text.
pub proof fn decoding_by_lines_loses_nothing(bytes: Seq<u8>)
    requires
        valid_utf8(bytes),
    ensures
        forall|k: int|
            0 <= k < raw_lines(bytes).len() ==> valid_utf8(#[trigger] raw_lines(bytes)[k]),
        lines(decode_utf8(bytes)) == Seq::new(
            raw_lines(bytes).len(),
            |k: int| decode_utf8(raw_lines(bytes)[k]),
        ),
    decreases bytes.len(),
{
    let raw = raw_lines(bytes);
    let text = decode_utf8(bytes);
    lemma_position(bytes, 10u8);
    let i = position(bytes, 10u8) as int;
    if bytes.len() == 0 {
        assert(lines(text) =~= Seq::new(raw.len(), |k: int| decode_utf8(raw[k])));
    } else if i < bytes.len() {
        let (line, rest) = (bytes.take(i), bytes.skip(i + 1));
        lemma_split_at_ascii(bytes, i);
        assert forall|j: int| 0 <= j < line.len() implies line[j] != 10u8 by {
            assert(line[j] == bytes[j]);
        }
        lemma_absent_ascii(line, 10u8);
        let head = decode_utf8(line);
        assert forall|j: int| 0 <= j < head.len() implies text[j] != '\n' by {
            assert(text[j] == head[j]);
        }
        lemma_position_is(text, '\n', head.len() as int);
        assert(text.take(head.len() as int) =~= head);
        assert(text.skip(head.len() as int + 1) =~= decode_utf8(rest));
        lemma_last_ascii(line, 13u8);
        decoding_by_lines_loses_nothing(rest);
        let first = without_last(line, 13u8);
        assert(raw =~= seq![first] + raw_lines(rest));
        assert forall|k: int| 0 <= k < raw.len() implies valid_utf8(#[trigger] raw[k]) by {
            if k > 0 {
                assert(raw[k] == raw_lines(rest)[k - 1]);
            }
        }
        assert(lines(text) =~= Seq::new(raw.len(), |k: int| decode_utf8(raw[k])));
    } else {
        lemma_absent_ascii(bytes, 10u8);
        lemma_position_is(text, '\n', text.len() as int);
        assert(raw =~= seq![bytes]);
        assert(lines(text) =~= Seq::new(raw.len(), |k: int| decode_utf8(raw[k])));
    }
}

/// The characters of each line.
pub open spec fn line_texts(lines: Seq<Vec<char>>) -> Seq<Seq<char>> {
    Seq::new(lines.len(), |i: int| lines[i]@)
}

/// The lines of `bytes`, each decoded by itself.
pub fn lossy_lines_of(bytes: &[u8]) -> (r: Vec<Vec<char>>)
    ensures
        line_texts(r@) == lossy_lines(bytes@),
        valid_utf8(bytes@) ==> line_texts(r@) == lines(decode_utf8(bytes@)),
{
    let raw = raw_lines_of(bytes);
    let mut out: Vec<Vec<char>> = Vec::new();
    let mut i: usize = 0;
    while i < raw.len()
        invariant
            i <= raw.len(),
            out@.len() == i,
            forall|k: int| 0 <= k < i ==> #[trigger] out@[k]@ == utf8_lossy(raw@[k]@),
            forall|k: int|
                0 <= k < i && valid_utf8(raw@[k]@) ==> #[trigger] out@[k]@ == decode_utf8(
                    raw@[k]@,
                ),
        decreases raw.len() - i,
    {
        let text = lossy_text(raw[i]);
        out.push(chars_of(text.as_str()));
        i += 1;
    }
    assert forall|k: int| 0 <= k < raw@.len() implies raw@[k]@ == #[trigger] raw_lines(
        bytes@,
    )[k] by {
        assert(byte_views(raw@)[k] == raw@[k]@);
    }
    assert(line_texts(out@) =~= lossy_lines(bytes@));
    proof {
        if valid_utf8(bytes@) {
            decoding_by_lines_loses_nothing(bytes@);
            assert(line_texts(out@) =~= lines(decode_utf8(bytes@)));
        }
    }
    out
}

/// The bytes of each piece.
pub open spec fn byte_views(pieces: Seq<&[u8]>) -> Seq<Seq<u8>> {
    Seq::new(pieces.len(), |i: int| pieces[i]@)
}

/// The index of the first `x` in `bytes`, or the length of `bytes`.
pub fn find_byte(bytes: &[u8], x: u8) -> (r: usize)
    ensures
        r == position(bytes@, x),
        r <= bytes.len(),
{
    let mut i: usize = 0;
    while i < bytes.len() && bytes[i] != x
        invariant
            i <= bytes.len(),
            forall|j: int| 0 <= j < i ==> bytes@[j] != x,
        decreases bytes.len() - i,
    {
        i += 1;
    }
    proof {
        lemma_position_is(bytes@, x, i as int);
    }
    i
}

fn raw_lines_of<'a>(bytes: &'a [u8]) -> (r: Vec<&'a [u8]>)
    ensures
        byte_views(r@) == raw_lines(bytes@),
{
    let mut out: Vec<&'a [u8]> = Vec::new();
    let mut rest = bytes;
    assert(byte_views(out@) =~= seq![]);
    assert(byte_views(out@) + raw_lines(rest@) =~= raw_lines(bytes@));
    while rest.len() > 0
        invariant
            byte_views(out@) + raw_lines(rest@) == raw_lines(bytes@),
        decreases rest@.len(),
    {
        let i = find_byte(rest, 10);
        let ghost before = byte_views(out@);
        if i == rest.len() {
            out.push(rest);
            assert(byte_views(out@) =~= before.push(rest@));
            assert(before + raw_lines(rest@) =~= before.push(rest@));
            return out;
        }
        let n = if i > 0 && rest[i - 1] == 13 {
            i - 1
        } else {
            i
        };
        out.push(slice_subrange(rest, 0, n));
        assert(rest@.subrange(0, n as int) =~= without_last(rest@.take(i as int), 13u8));
        assert(rest@.subrange(i + 1, rest@.len() as int) =~= rest@.skip(i + 1));
        assert(byte_views(out@) =~= before.push(without_last(rest@.take(i as int), 13u8)));
        assert(byte_views(out@) + raw_lines(rest@.skip(i + 1)) =~= before + raw_lines(rest@));
        rest = slice_subrange(rest, i + 1, rest.len());
    }
    assert(byte_views(out@) + raw_lines(rest@) =~= byte_views(out@));
    out
}

/// Decoded lines, borrowed.
pub fn borrowed_lines<'a>(lines: &'a Vec<Vec<char>>) -> (r: Vec<&'a [char]>)
    ensures
        views(r@) == line_texts(lines@),
{
    let mut out: Vec<&'a [char]> = Vec::new();
    let mut i: usize = 0;
    while i < lines.len()
        invariant
            i <= lines.len(),
            out@.len() == i,
            forall|k: int| 0 <= k < i ==> #[trigger] out@[k]@ == lines@[k]@,
        decreases lines.len() - i,
    {
        out.push(lines[i].as_slice());
        i += 1;
    }
    assert(views(out@) =~= line_texts(lines@));
    out
}

/// A line ends at a line feed, or at a carriage return and a line feed, and is decoded by itself,
/// whatever precedes or follows it; bytes behind the last line feed are a line of their own.
pub proof fn each_line_is_decoded_by_itself(line: Seq<u8>, rest: Seq<u8>)
    requires
        forall|i: int| 0 <= i < line.len() ==> #[trigger] line[i] != 10u8,
    ensures
        line.len() > 0 ==> lossy_lines(line) == seq![utf8_lossy(line)],
        lossy_lines(Seq::empty()).len() == 0,
        (line.len() == 0 || line.last() != 13u8) ==> lossy_lines(line.push(10u8) + rest) == seq![
            utf8_lossy(line),
        ] + lossy_lines(rest),
        lossy_lines(line.push(13u8).push(10u8) + rest) == seq![utf8_lossy(line)] + lossy_lines(
            rest,
        ),
{
    let n = line.len() as int;
    lemma_position_is(line, 10u8, n);
    if n > 0 {
        assert(raw_lines(line) =~= seq![line]);
        assert(lossy_lines(line) =~= seq![utf8_lossy(line)]);
    }
    let s = line.push(10u8) + rest;
    assert forall|j: int| 0 <= j < n implies s[j] != 10u8 by {
        assert(s[j] == line[j]);
    }
    lemma_position_is(s, 10u8, n);
    assert(s.take(n) =~= line);
    assert(s.skip(n + 1) =~= rest);
    if n == 0 || line.last() != 13u8 {
        assert(raw_lines(s) =~= seq![line] + raw_lines(rest));
        assert(lossy_lines(s) =~= seq![utf8_lossy(line)] + lossy_lines(rest));
    }
    let t = line.push(13u8).push(10u8) + rest;
    assert forall|j: int| 0 <= j < n + 1 implies t[j] != 10u8 by {
        if j < n {
            assert(t[j] == line[j]);
        }
    }
    lemma_position_is(t, 10u8, n + 1);
    assert(t.take(n + 1) =~= line.push(13u8));
    assert(line.push(13u8).drop_last() =~= line);
    assert(t.skip(n + 2) =~= rest);
    assert(raw_lines(t) =~= seq![line] + raw_lines(rest));
    assert(lossy_lines(t) =~= seq![utf8_lossy(line)] + lossy_lines(rest));
}

} // verus!
