//! Conversions between byte offsets and (line, character) editor positions
//! over a UTF-8 text buffer.
//!
//! Lines are the pieces obtained by splitting the buffer on line-feed bytes;
//! the `character` component of a position counts Unicode scalar values
//! (UTF-8 scalar-start bytes), not bytes.

use vstd::prelude::*;

verus! {

/// The byte that separates lines.
pub const LINE_FEED: u8 = 10;

/// A zero-indexed editor position within a text buffer.
#[derive(Clone, Copy, PartialEq, Eq, Structural, Debug)]
pub struct Position {
    pub line: usize,
    pub character: usize,
}

/// True of a byte that starts a UTF-8 scalar value (equivalently, of every
/// byte that is not a continuation byte).
pub open spec fn is_scalar_start(b: u8) -> bool {
    b < 0x80 || b >= 0xC0
}

/// Number of line-feed bytes in `t`.
pub open spec fn count_newlines(t: Seq<u8>) -> int
    decreases t.len(),
{
    if t.len() == 0 {
        0
    } else {
        count_newlines(t.drop_last()) + if t.last() == LINE_FEED {
            1int
        } else {
            0int
        }
    }
}

/// Number of UTF-8 scalar-start bytes in `t`.
pub open spec fn count_scalar_starts(t: Seq<u8>) -> int
    decreases t.len(),
{
    if t.len() == 0 {
        0
    } else {
        count_scalar_starts(t.drop_last()) + if is_scalar_start(t.last()) {
            1int
        } else {
            0int
        }
    }
}

/// Byte offset of the start of the line containing offset `off`: one past
/// the nearest line feed before `off`, or the start of the buffer.
pub open spec fn line_start_of(t: Seq<u8>, off: int) -> int
    decreases off,
{
    if off <= 0 {
        0
    } else if t[off - 1] == LINE_FEED {
        off
    } else {
        line_start_of(t, off - 1)
    }
}

/// Offset of the first line feed at or after `i`, or the end of the buffer.
pub open spec fn line_end_of(t: Seq<u8>, i: int) -> int
    decreases t.len() - i,
{
    if i >= t.len() {
        t.len() as int
    } else if t[i] == LINE_FEED {
        i
    } else {
        line_end_of(t, i + 1)
    }
}

/// Byte offset of the start of line `line`: one past the `line`-th line feed.
pub open spec fn nth_line_start(t: Seq<u8>, line: int) -> int
    decreases line,
{
    if line <= 0 {
        0
    } else {
        line_end_of(t, nth_line_start(t, line - 1)) + 1
    }
}

/// Line component of the position of byte offset `off`.
pub open spec fn line_of_offset(t: Seq<u8>, off: int) -> int {
    count_newlines(t.take(off))
}

/// Character component of the position of byte offset `off`: the number of
/// scalar values between the start of its line and `off`.
pub open spec fn character_of_offset(t: Seq<u8>, off: int) -> int {
    count_scalar_starts(t.subrange(line_start_of(t, off), off))
}

proof fn lemma_count_newlines_step(t: Seq<u8>, i: int)
    requires
        0 <= i < t.len(),
    ensures
        count_newlines(t.take(i + 1)) == count_newlines(t.take(i)) + if t[i] == LINE_FEED {
            1int
        } else {
            0int
        },
{
    assert(t.take(i + 1).drop_last() =~= t.take(i));
    assert(t.take(i + 1).last() == t[i]);
}

proof fn lemma_count_scalar_starts_step(t: Seq<u8>, s: int, i: int)
    requires
        0 <= s <= i < t.len(),
    ensures
        count_scalar_starts(t.subrange(s, i + 1)) == count_scalar_starts(t.subrange(s, i))
            + if is_scalar_start(t[i]) {
            1int
        } else {
            0int
        },
{
    assert(t.subrange(s, i + 1).drop_last() =~= t.subrange(s, i));
    assert(t.subrange(s, i + 1).last() == t[i]);
}

/// The start of the line containing `off` lies at or before `off`.
pub proof fn lemma_line_start_of_bounds(t: Seq<u8>, off: int)
    requires
        0 <= off,
    ensures
        0 <= line_start_of(t, off) <= off,
    decreases off,
{
    if off > 0 && t[off - 1] != LINE_FEED {
        lemma_line_start_of_bounds(t, off - 1);
    }
}

/// There are never more line feeds than bytes.
pub proof fn lemma_count_newlines_bounds(t: Seq<u8>)
    ensures
        0 <= count_newlines(t) <= t.len(),
    decreases t.len(),
{
    if t.len() > 0 {
        lemma_count_newlines_bounds(t.drop_last());
    }
}

/// There are never more scalar starts than bytes.
pub proof fn lemma_count_scalar_starts_bounds(t: Seq<u8>)
    ensures
        0 <= count_scalar_starts(t) <= t.len(),
    decreases t.len(),
{
    if t.len() > 0 {
        lemma_count_scalar_starts_bounds(t.drop_last());
    }
}

/// Relation between an in-bounds (line, character) pair and the byte offset
/// that stands for it: the offset of the `character`-th scalar value of line
/// `line`, clamped to the end of that line when the line is shorter.
pub open spec fn is_offset_for(t: Seq<u8>, line: int, character: int, off: int) -> bool {
    let s = nth_line_start(t, line);
    let e = line_end_of(t, s);
    &&& s <= off <= e <= t.len()
    &&& (character < count_scalar_starts(t.subrange(s, e)) ==> off < e && is_scalar_start(t[off])
        && count_scalar_starts(t.subrange(s, off)) == character)
    &&& (character >= count_scalar_starts(t.subrange(s, e)) ==> off == e)
}

proof fn lemma_no_newline_count(t: Seq<u8>, i: int, k: int)
    requires
        0 <= i <= k <= t.len(),
        forall|m: int| i <= m < k ==> t[m] != LINE_FEED,
    ensures
        count_newlines(t.take(k)) == count_newlines(t.take(i)),
    decreases k - i,
{
    if k > i {
        lemma_no_newline_count(t, i, k - 1);
        lemma_count_newlines_step(t, k - 1);
    }
}

proof fn lemma_count_newlines_prefix_le(t: Seq<u8>, i: int)
    requires
        0 <= i <= t.len(),
    ensures
        count_newlines(t.take(i)) <= count_newlines(t),
    decreases t.len() - i,
{
    if i < t.len() {
        lemma_count_newlines_step(t, i);
        lemma_count_newlines_prefix_le(t, i + 1);
    } else {
        assert(t.take(i) =~= t);
    }
}

proof fn lemma_count_scalar_starts_mono(t: Seq<u8>, s: int, a: int, b: int)
    requires
        0 <= s <= a <= b <= t.len(),
    ensures
        count_scalar_starts(t.subrange(s, a)) <= count_scalar_starts(t.subrange(s, b)),
    decreases b - a,
{
    if a < b {
        lemma_count_scalar_starts_step(t, s, a);
        lemma_count_scalar_starts_mono(t, s, a + 1, b);
    }
}

proof fn lemma_line_end_props(t: Seq<u8>, i: int)
    requires
        0 <= i <= t.len(),
    ensures
        i <= line_end_of(t, i) <= t.len(),
        forall|m: int| i <= m < line_end_of(t, i) ==> t[m] != LINE_FEED,
        line_end_of(t, i) < t.len() ==> t[line_end_of(t, i)] == LINE_FEED,
    decreases t.len() - i,
{
    if i < t.len() && t[i] != LINE_FEED {
        lemma_line_end_props(t, i + 1);
    }
}

proof fn lemma_line_end_skip(t: Seq<u8>, i: int, k: int)
    requires
        0 <= i <= k <= t.len(),
        forall|m: int| i <= m < k ==> t[m] != LINE_FEED,
    ensures
        line_end_of(t, i) == line_end_of(t, k),
    decreases k - i,
{
    if i < k {
        lemma_line_end_skip(t, i + 1, k);
    }
}

proof fn lemma_line_start_in_line(t: Seq<u8>, s: int, off: int)
    requires
        0 <= s <= off <= t.len(),
        s == 0 || t[s - 1] == LINE_FEED,
        forall|m: int| s <= m < off ==> t[m] != LINE_FEED,
    ensures
        line_start_of(t, off) == s,
    decreases off - s,
{
    if off > s {
        lemma_line_start_in_line(t, s, off - 1);
    }
}

/// For a line index within the buffer, the start of that line lies in the
/// buffer, is preceded by a line feed (unless it is the very start), and has
/// exactly `line` line feeds before it.
proof fn lemma_nth_line_start_count(t: Seq<u8>, line: int)
    requires
        0 <= line <= count_newlines(t),
    ensures
        0 <= nth_line_start(t, line) <= t.len(),
        count_newlines(t.take(nth_line_start(t, line))) == line,
        nth_line_start(t, line) == 0 || t[nth_line_start(t, line) - 1] == LINE_FEED,
    decreases line,
{
    if line == 0 {
        assert(t.take(0) =~= Seq::<u8>::empty());
    } else {
        lemma_nth_line_start_count(t, line - 1);
        let s = nth_line_start(t, line - 1);
        let e = line_end_of(t, s);
        lemma_line_end_props(t, s);
        lemma_no_newline_count(t, s, e);
        if e == t.len() {
            assert(t.take(e) =~= t);
            assert(false);
        }
        lemma_count_newlines_step(t, e);
    }
}

/// Converts a (line, character) pair to a byte offset in the given text.
/// Lines and characters are zero-indexed; a character index beyond the end
/// of the line degrades to the offset of the line's end. Fails exactly when
/// `line` exceeds the number of line-feed-separated lines.
pub fn line_char_to_byte_index(text: &[u8], line: usize, character: usize) -> (r: Option<usize>)
    ensures
        r is Some <==> line <= count_newlines(text@),
        r matches Some(off) ==> is_offset_for(text@, line as int, character as int, off as int),
{
    let ghost t = text@;
    let mut i: usize = 0;
    let mut l: usize = 0;
    while l < line
        invariant
            t == text@,
            l <= line,
            i <= t.len(),
            i == nth_line_start(t, l as int),
            count_newlines(t.take(i as int)) == l,
        decreases line - l,
    {
        let mut j: usize = i;
        while j < text.len() && text[j] != LINE_FEED
            invariant
                t == text@,
                i <= j <= t.len(),
                forall|m: int| i <= m < j ==> t[m] != LINE_FEED,
            decreases t.len() - j,
        {
            j = j + 1;
        }
        if j == text.len() {
            proof {
                lemma_no_newline_count(t, i as int, t.len() as int);
                assert(t.take(t.len() as int) =~= t);
            }
            return None;
        }
        proof {
            lemma_line_end_skip(t, i as int, j as int);
            lemma_no_newline_count(t, i as int, j as int);
            lemma_count_newlines_step(t, j as int);
        }
        i = j + 1;
        l = l + 1;
    }
    proof {
        lemma_count_newlines_prefix_le(t, i as int);
    }
    let ghost s = i as int;
    let ghost e = line_end_of(t, s);
    proof {
        lemma_line_end_props(t, s);
    }
    let mut j: usize = i;
    let mut c: usize = 0;
    while j < text.len() && text[j] != LINE_FEED
        invariant
            t == text@,
            s == i as int,
            s == nth_line_start(t, line as int),
            line <= count_newlines(t),
            e == line_end_of(t, s),
            s <= e <= t.len(),
            i <= j <= t.len(),
            c <= character,
            c == count_scalar_starts(t.subrange(s, j as int)),
            forall|m: int| s <= m < j ==> t[m] != LINE_FEED,
        decreases t.len() - j,
    {
        let b = text[j];
        proof {
            lemma_line_end_skip(t, s, j as int);
            lemma_line_end_props(t, j as int + 1);
            lemma_count_scalar_starts_step(t, s, j as int);
        }
        if b < 0x80 || b >= 0xC0 {
            if c == character {
                proof {
                    lemma_count_scalar_starts_mono(t, s, j as int + 1, e);
                }
                return Some(j);
            }
            c = c + 1;
        }
        j = j + 1;
    }
    proof {
        lemma_line_end_skip(t, s, j as int);
    }
    Some(j)
}

/// Round trip: converting an in-bounds (line, character) position to a byte
/// offset and back yields exactly the same position. `character` may also be
/// the number of scalar values in the line, standing for the line's end.
pub proof fn lemma_position_round_trip(t: Seq<u8>, line: int, character: int, off: int)
    requires
        0 <= line <= count_newlines(t),
        0 <= character,
        character <= count_scalar_starts(
            t.subrange(nth_line_start(t, line), line_end_of(t, nth_line_start(t, line))),
        ),
        is_offset_for(t, line, character, off),
    ensures
        0 <= off <= t.len(),
        line_of_offset(t, off) == line,
        character_of_offset(t, off) == character,
{
    let s = nth_line_start(t, line);
    let e = line_end_of(t, s);
    lemma_nth_line_start_count(t, line);
    lemma_line_end_props(t, s);
    lemma_no_newline_count(t, s, off);
    lemma_line_start_in_line(t, s, off);
}

/// Converts a byte offset to a (line, character) position in the given text.
/// Fails exactly when the offset lies beyond the end of the buffer.
pub fn byte_offset_to_position(byte_offset: usize, file_content: &[u8]) -> (r: Option<Position>)
    ensures
        r is Some <==> byte_offset <= file_content@.len(),
        r matches Some(p) ==> p.line == line_of_offset(file_content@, byte_offset as int)
            && p.character == character_of_offset(file_content@, byte_offset as int),
{
    if byte_offset > file_content.len() {
        return None;
    }
    let ghost t = file_content@;
    let mut i: usize = 0;
    let mut line: usize = 0;
    let mut line_start: usize = 0;
    while i < byte_offset
        invariant
            i <= byte_offset <= t.len(),
            t == file_content@,
            line <= i,
            line == count_newlines(t.take(i as int)),
            line_start == line_start_of(t, i as int),
            line_start <= i,
        decreases byte_offset - i,
    {
        proof {
            lemma_count_newlines_step(t, i as int);
        }
        if file_content[i] == LINE_FEED {
            line = line + 1;
            line_start = i + 1;
        }
        i = i + 1;
    }
    let mut character: usize = 0;
    let mut j: usize = line_start;
    while j < byte_offset
        invariant
            line_start <= j <= byte_offset <= t.len(),
            t == file_content@,
            character <= j,
            character == count_scalar_starts(t.subrange(line_start as int, j as int)),
        decreases byte_offset - j,
    {
        proof {
            lemma_count_scalar_starts_step(t, line_start as int, j as int);
        }
        let b = file_content[j];
        if b < 0x80 || b >= 0xC0 {
            character = character + 1;
        }
        j = j + 1;
    }
    Some(Position { line, character })
}

} // verus!
