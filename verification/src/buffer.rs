//! The text buffer: a rope of UTF-8 text with verified coordinate
//! conversions between byte offsets, character indices, UTF-16 code
//! units, rows and columns.
//!
//! The buffer's view is the sequence of characters it holds; every
//! contract below is stated over that view with the spec functions of
//! `unicode` and `lines`.

use vstd::prelude::*;
use crate::cursor::{Bias, Point, Position, Selection};
use crate::lines::{line_end_char, line_text, lemma_line_bounds, lemma_count_nl_prefix,
    lemma_count_nl_take_mono, lemma_line_start_min};
use crate::rope::{rope_text, rope_new, rope_from_str, rope_clone, rope_eq, rope_len_bytes,
    rope_len_chars, rope_len_utf16, rope_len_lines, rope_byte_to_char, rope_char_to_byte,
    rope_char_to_line, rope_line_to_char, rope_char_to_utf16, rope_utf16_to_char, rope_char,
    rope_insert, rope_remove, rope_slice_string};
use crate::unicode::{byte_len, utf16_len, count_nl, char_of_byte, char_of_utf16, is_boundary,
    line_start_char, lemma_byte_len_bounds, lemma_byte_len_split, lemma_byte_len_take_mono,
    lemma_char_of_byte_floor, lemma_char_of_byte_at_boundary, lemma_boundary_iff_floor_exact,
    lemma_char_of_utf16_floor, lemma_line_start_char_props};

verus! {

/// Byte offset of `b` clipped down to the nearest character boundary;
/// offsets past the end clip to the end.
pub open spec fn clip_left(s: Seq<char>, b: int) -> int {
    if b > byte_len(s) {
        byte_len(s)
    } else {
        byte_len(s.take(char_of_byte(s, b)))
    }
}

/// Byte offset of `b` clipped up to the nearest character boundary;
/// offsets past the end clip to the end.
pub open spec fn clip_right(s: Seq<char>, b: int) -> int {
    if b > byte_len(s) {
        byte_len(s)
    } else if b == byte_len(s.take(char_of_byte(s, b))) {
        b
    } else {
        byte_len(s.take(char_of_byte(s, b) + 1))
    }
}

/// Byte offset where row `row` starts; rows past the end start at the
/// end of the text.
pub open spec fn line_start_offset_spec(s: Seq<char>, row: int) -> int {
    if row > count_nl(s) {
        byte_len(s)
    } else {
        byte_len(s.take(line_start_char(s, row)))
    }
}

/// Byte offset just past the content of row `row`, excluding its
/// newline; rows past the end end at the end of the text.
pub open spec fn line_end_offset_spec(s: Seq<char>, row: int) -> int {
    if row > count_nl(s) {
        byte_len(s)
    } else {
        byte_len(s.take(line_end_char(s, row)))
    }
}

/// Character index where row `row` starts, clamped to the end of the
/// text for rows past the end.
pub open spec fn line_start_char_clamped(s: Seq<char>, row: int) -> int {
    if row > count_nl(s) {
        s.len() as int
    } else {
        line_start_char(s, row)
    }
}

/// Character index one past the content of row `row`, clamped to the
/// end of the text for rows past the end.
pub open spec fn line_end_char_clamped(s: Seq<char>, row: int) -> int {
    if row > count_nl(s) {
        s.len() as int
    } else {
        line_end_char(s, row)
    }
}

/// Byte offset of a 0-based line/character position: the character
/// count (in Unicode scalars) clamps to the line's content, and lines
/// past the end map to the end of the text.
pub open spec fn position_to_offset_spec(s: Seq<char>, line: int, character: int) -> int {
    if line > count_nl(s) {
        byte_len(s)
    } else {
        let sc = line_start_char(s, line);
        let ec = line_end_char(s, line);
        let n: int = if character <= ec - sc {
            character
        } else {
            ec - sc
        };
        byte_len(s.take(sc + n))
    }
}

/// The row that holds byte offset `b` (which must be clipped).
pub open spec fn row_of_offset(s: Seq<char>, b: int) -> int {
    count_nl(s.take(char_of_byte(s, b)))
}

/// What `char::is_alphanumeric` returns: a pure function of the
/// character alone, left unnamed beyond that.
pub uninterp spec fn alphanumeric(c: char) -> bool;

/// Relies on `char::is_alphanumeric`: a deterministic Unicode property
/// of the character.
#[verifier::external_body]
fn char_is_alphanumeric(c: char) -> (r: bool)
    ensures
        r == alphanumeric(c),
{
    c.is_alphanumeric()
}

/// A word character: alphanumeric or an underscore.
pub open spec fn is_word_char(c: char) -> bool {
    alphanumeric(c) || c == '_'
}

fn is_word_char_exec(c: char) -> (r: bool)
    ensures
        r == is_word_char(c),
{
    let a = char_is_alphanumeric(c);
    a || c == '_'
}

/// First character of the run of word characters that ends at `i`.
pub open spec fn word_start_char(s: Seq<char>, i: int) -> int
    decreases i,
{
    if 0 < i <= s.len() && is_word_char(s[i - 1]) {
        word_start_char(s, i - 1)
    } else {
        i
    }
}

/// One past the last character of the run of word characters that
/// starts at `i`.
pub open spec fn word_end_char(s: Seq<char>, i: int) -> int
    decreases s.len() - i,
{
    if 0 <= i < s.len() && is_word_char(s[i]) {
        word_end_char(s, i + 1)
    } else {
        i
    }
}

/// What `char::is_whitespace` returns: a pure function of the
/// character alone, left unnamed beyond that.
pub uninterp spec fn whitespace(c: char) -> bool;

/// Relies on `char::is_whitespace`: a deterministic Unicode property
/// of the character.
#[verifier::external_body]
fn char_is_whitespace(c: char) -> (r: bool)
    ensures
        r == whitespace(c),
{
    c.is_whitespace()
}

/// First character index at or after `i` (below `j`) that is not
/// whitespace.
pub open spec fn trim_left_char(s: Seq<char>, i: int, j: int) -> int
    decreases j - i,
{
    if 0 <= i < j && i < s.len() && whitespace(s[i]) {
        trim_left_char(s, i + 1, j)
    } else {
        i
    }
}

/// Character index just past the last non-whitespace character below
/// `j` (at or after `i`).
pub open spec fn trim_right_char(s: Seq<char>, i: int, j: int) -> int
    decreases j - i,
{
    if i < j && 0 < j <= s.len() && whitespace(s[j - 1]) {
        trim_right_char(s, i, j - 1)
    } else {
        j
    }
}

/// Clipping down is monotone in the offset.
pub proof fn lemma_clip_left_mono(s: Seq<char>, b1: int, b2: int)
    requires
        0 <= b1 <= b2,
    ensures
        clip_left(s, b1) <= clip_left(s, b2),
{
    lemma_char_of_byte_floor(s, b1);
    lemma_char_of_byte_floor(s, b2);
    let c1 = char_of_byte(s, b1);
    let c2 = char_of_byte(s, b2);
    lemma_byte_len_bounds(s);
    if b1 > byte_len(s) {
        assert(s.take(s.len() as int) =~= s);
        lemma_byte_len_take_mono(s, c2, s.len() as int);
    } else if b2 > byte_len(s) {
        lemma_byte_len_take_mono(s, c1, s.len() as int);
        assert(s.take(s.len() as int) =~= s);
    } else {
        if c1 > c2 {
            lemma_byte_len_take_mono(s, c2 + 1, c1);
            assert(false);
        }
        lemma_byte_len_take_mono(s, c1, c2);
    }
}

/// A rope-backed text buffer; the view is the held character sequence.
pub struct TextBuffer {
    rope: ropey::Rope,
}

impl View for TextBuffer {
    type V = Seq<char>;

    closed spec fn view(&self) -> Seq<char> {
        rope_text(self.rope)
    }
}

impl Clone for TextBuffer {
    fn clone(&self) -> (r: Self)
        ensures
            r@ == self@,
    {
        TextBuffer { rope: rope_clone(&self.rope) }
    }
}

impl PartialEq for TextBuffer {
    fn eq(&self, other: &Self) -> (r: bool)
        ensures
            r == (self@ == other@),
    {
        rope_eq(&self.rope, &other.rope)
    }
}

impl vstd::std_specs::cmp::PartialEqSpecImpl for TextBuffer {
    open spec fn obeys_eq_spec() -> bool {
        true
    }

    open spec fn eq_spec(&self, other: &Self) -> bool {
        self@ == other@
    }
}

impl Default for TextBuffer {
    fn default() -> (r: Self)
        ensures
            r@ == Seq::<char>::empty(),
    {
        TextBuffer { rope: rope_new() }
    }
}

impl TextBuffer {
    /// An empty buffer.
    pub fn new() -> (r: Self)
        ensures
            r@ == Seq::<char>::empty(),
    {
        TextBuffer { rope: rope_new() }
    }

    /// A buffer holding exactly `text`.
    pub fn from_str(text: &str) -> (r: Self)
        ensures
            r@ == text@,
    {
        TextBuffer { rope: rope_from_str(text) }
    }

    /// Length of the text in bytes.
    pub fn len(&self) -> (n: usize)
        ensures
            n == byte_len(self@),
    {
        rope_len_bytes(&self.rope)
    }

    /// Total number of characters in the text.
    pub fn chars_count(&self) -> (n: usize)
        ensures
            n == self@.len(),
    {
        rope_len_chars(&self.rope)
    }

    /// Length of the text in UTF-16 code units.
    pub fn len_utf16(&self) -> (n: usize)
        ensures
            n == utf16_len(self@),
    {
        rope_len_utf16(&self.rope)
    }

    /// Number of lines: one more than the newline count, so an empty
    /// buffer has one line and a trailing newline opens another.
    pub fn lines_len(&self) -> (n: usize)
        ensures
            n == count_nl(self@) + 1,
    {
        rope_len_lines(&self.rope)
    }

    /// The whole text as an owned string.
    pub fn to_string(&self) -> (r: String)
        ensures
            r@ == self@,
    {
        let n = rope_len_chars(&self.rope);
        let s = rope_slice_string(&self.rope, 0, n);
        proof {
            assert(self@.subrange(0, self@.len() as int) =~= self@);
        }
        s
    }

    /// The text of the byte range, which must lie on character
    /// boundaries.
    pub fn slice(&self, range: Selection) -> (r: String)
        requires
            range.start <= range.end <= byte_len(self@),
            is_boundary(self@, range.start as int),
            is_boundary(self@, range.end as int),
        ensures
            r@ == self@.subrange(
                char_of_byte(self@, range.start as int),
                char_of_byte(self@, range.end as int),
            ),
    {
        proof {
            lemma_char_of_byte_floor(self@, range.start as int);
            lemma_char_of_byte_floor(self@, range.end as int);
            lemma_boundary_iff_floor_exact(self@, range.start as int);
            lemma_boundary_iff_floor_exact(self@, range.end as int);
            let ca = char_of_byte(self@, range.start as int);
            let cb = char_of_byte(self@, range.end as int);
            if ca > cb {
                lemma_byte_len_take_mono(self@, cb, ca);
            }
        }
        let ca = rope_byte_to_char(&self.rope, range.start);
        let cb = rope_byte_to_char(&self.rope, range.end);
        rope_slice_string(&self.rope, ca, cb)
    }

    /// The text of the byte range with surrounding whitespace
    /// stripped; the range must lie on character boundaries.
    pub fn slice_trimmed(&self, range: Selection) -> (r: String)
        requires
            range.start <= range.end <= byte_len(self@),
            is_boundary(self@, range.start as int),
            is_boundary(self@, range.end as int),
        ensures
            ({
                let ca = char_of_byte(self@, range.start as int);
                let cb = char_of_byte(self@, range.end as int);
                let a = trim_left_char(self@, ca, cb);
                let b = trim_right_char(self@, a, cb);
                r@ == self@.subrange(a, b)
            }),
    {
        proof {
            lemma_char_of_byte_floor(self@, range.start as int);
            lemma_char_of_byte_floor(self@, range.end as int);
            lemma_boundary_iff_floor_exact(self@, range.start as int);
            lemma_boundary_iff_floor_exact(self@, range.end as int);
            if char_of_byte(self@, range.start as int) > char_of_byte(self@, range.end as int) {
                lemma_byte_len_take_mono(
                    self@,
                    char_of_byte(self@, range.end as int),
                    char_of_byte(self@, range.start as int),
                );
            }
        }
        let ca = rope_byte_to_char(&self.rope, range.start);
        let cb = rope_byte_to_char(&self.rope, range.end);
        let mut a = ca;
        loop
            invariant
                ca <= a <= cb <= self@.len(),
                trim_left_char(self@, a as int, cb as int) == trim_left_char(
                    self@,
                    ca as int,
                    cb as int,
                ),
            ensures
                a == trim_left_char(self@, ca as int, cb as int),
                ca <= a <= cb,
            decreases cb - a,
        {
            if a == cb {
                break ;
            }
            let c = rope_char(&self.rope, a);
            let w = char_is_whitespace(c);
            if !w {
                break ;
            }
            a = a + 1;
        }
        let mut b = cb;
        loop
            invariant
                a <= b <= cb <= self@.len(),
                trim_right_char(self@, a as int, b as int) == trim_right_char(
                    self@,
                    a as int,
                    cb as int,
                ),
            ensures
                b == trim_right_char(self@, a as int, cb as int),
                a <= b <= cb,
            decreases b,
        {
            if b == a {
                break ;
            }
            let c = rope_char(&self.rope, b - 1);
            let w = char_is_whitespace(c);
            if !w {
                break ;
            }
            b = b - 1;
        }
        rope_slice_string(&self.rope, a, b)
    }

    /// Clips `offset` to a character boundary, rounding in the
    /// direction of `bias`; out-of-bounds offsets clip to the end.
    pub fn clip_offset(&self, offset: usize, bias: Bias) -> (r: usize)
        ensures
            bias == Bias::Left ==> r == clip_left(self@, offset as int),
            bias == Bias::Right ==> r == clip_right(self@, offset as int),
            is_boundary(self@, r as int),
            r <= byte_len(self@),
    {
        let len = rope_len_bytes(&self.rope);
        proof {
            assert(self@.take(self@.len() as int) =~= self@);
            assert(is_boundary(self@, byte_len(self@)));
            lemma_char_of_byte_floor(self@, offset as int);
        }
        if offset > len {
            return len;
        }
        let ci = rope_byte_to_char(&self.rope, offset);
        let floor = rope_char_to_byte(&self.rope, ci);
        proof {
            assert(is_boundary(self@, byte_len(self@.take(char_of_byte(self@, offset as int)))));
        }
        if floor == offset {
            return offset;
        }
        match bias {
            Bias::Left => floor,
            Bias::Right => {
                proof {
                    lemma_byte_len_bounds(self@);
                    lemma_boundary_iff_floor_exact(self@, offset as int);
                    assert(char_of_byte(self@, offset as int) < self@.len());
                    lemma_byte_len_take_mono(
                        self@,
                        char_of_byte(self@, offset as int) + 1,
                        self@.len() as int,
                    );
                    assert(is_boundary(
                        self@,
                        byte_len(self@.take(char_of_byte(self@, offset as int) + 1)),
                    ));
                }
                rope_char_to_byte(&self.rope, ci + 1)
            },
        }
    }

    /// Character indices spanning the content of row `row` (excluding
    /// its newline).
    fn line_char_bounds(&self, row: usize) -> (r: (usize, usize))
        requires
            row as int <= count_nl(self@),
        ensures
            r.0 == line_start_char(self@, row as int),
            r.1 == line_end_char(self@, row as int),
            r.0 <= r.1 <= self@.len(),
    {
        let nl = rope_len_lines(&self.rope);
        proof {
            lemma_line_bounds(self@, row as int);
            lemma_line_start_char_props(self@, row as int + 1);
        }
        let sc = rope_line_to_char(&self.rope, row);
        let ec_full = rope_line_to_char(&self.rope, row + 1);
        if row + 1 == nl {
            (sc, ec_full)
        } else {
            (sc, ec_full - 1)
        }
    }

    /// The content of row `row`: without its newline, with a carriage
    /// return if one precedes the newline; rows past the end are empty.
    pub fn slice_row(&self, row: usize) -> (r: String)
        ensures
            r@ == line_text(self@, row as int),
    {
        let nl = rope_len_lines(&self.rope);
        if row >= nl {
            return String::new();
        }
        let (sc, ec) = self.line_char_bounds(row);
        rope_slice_string(&self.rope, sc, ec)
    }

    /// Byte length of the content of row `row`.
    pub fn line_len(&self, row: usize) -> (n: usize)
        ensures
            n == byte_len(line_text(self@, row as int)),
    {
        let nl = rope_len_lines(&self.rope);
        if row >= nl {
            return 0;
        }
        let (sc, ec) = self.line_char_bounds(row);
        let a = rope_char_to_byte(&self.rope, sc);
        let b = rope_char_to_byte(&self.rope, ec);
        proof {
            assert(self@.take(ec as int).take(sc as int) =~= self@.take(sc as int));
            assert(self@.take(ec as int).skip(sc as int) =~= self@.subrange(sc as int, ec as int));
            lemma_byte_len_split(self@.take(ec as int), sc as int);
            lemma_byte_len_take_mono(self@, sc as int, ec as int);
        }
        b - a
    }

    /// Byte offset where row `row` starts; rows past the end start at
    /// the end of the text.
    pub fn line_start_offset(&self, row: usize) -> (n: usize)
        ensures
            n == line_start_offset_spec(self@, row as int),
    {
        let nl = rope_len_lines(&self.rope);
        if row >= nl {
            return rope_len_bytes(&self.rope);
        }
        proof {
            lemma_line_start_char_props(self@, row as int);
        }
        let sc = rope_line_to_char(&self.rope, row);
        rope_char_to_byte(&self.rope, sc)
    }

    /// Byte offset just past the content of row `row`, excluding its
    /// newline; rows past the end end at the end of the text.
    pub fn line_end_offset(&self, row: usize) -> (n: usize)
        ensures
            n == line_end_offset_spec(self@, row as int),
    {
        let nl = rope_len_lines(&self.rope);
        if row >= nl {
            proof {
                assert(self@.take(self@.len() as int) =~= self@);
            }
            return rope_len_bytes(&self.rope);
        }
        let (_, ec) = self.line_char_bounds(row);
        rope_char_to_byte(&self.rope, ec)
    }

    /// The contiguous text of the rows in `start_row..end_row`,
    /// including the newlines between them but not the final one.
    pub fn slice_rows(&self, start_row: usize, end_row: usize) -> (r: String)
        requires
            start_row < end_row,
        ensures
            r@ == self@.subrange(
                line_start_char_clamped(self@, start_row as int),
                line_end_char_clamped(self@, end_row - 1),
            ),
    {
        let nl = rope_len_lines(&self.rope);
        let n_chars = rope_len_chars(&self.rope);
        proof {
            lemma_line_start_char_props(self@, start_row as int);
        }
        let cs: usize = if start_row >= nl {
            n_chars
        } else {
            rope_line_to_char(&self.rope, start_row)
        };
        let er = end_row - 1;
        let ce: usize = if er >= nl {
            n_chars
        } else {
            let (_, ec) = self.line_char_bounds(er);
            ec
        };
        proof {
            if start_row as int <= count_nl(self@) && er as int <= count_nl(self@) {
                lemma_line_bounds(self@, er as int);
                crate::unicode::lemma_line_start_char_mono(self@, start_row as int, er as int);
            }
        }
        rope_slice_string(&self.rope, cs, ce)
    }

    /// Every row's content, in order.
    pub fn rows(&self) -> (r: Vec<String>)
        ensures
            r@.len() == count_nl(self@) + 1,
            forall|i: int| 0 <= i < r@.len() ==> #[trigger] r@[i]@ == line_text(self@, i),
    {
        let nl = rope_len_lines(&self.rope);
        let mut out: Vec<String> = Vec::new();
        let mut row: usize = 0;
        while row < nl
            invariant
                nl == count_nl(self@) + 1,
                row <= nl,
                out@.len() == row,
                forall|i: int| 0 <= i < row ==> #[trigger] out@[i]@ == line_text(self@, i),
            decreases nl - row,
        {
            let line = self.slice_row(row);
            out.push(line);
            row = row + 1;
        }
        out
    }

    /// Row and byte-column of `offset`, after clipping it down to a
    /// character boundary.
    pub fn offset_to_point(&self, offset: usize) -> (p: Point)
        ensures
            p.row == row_of_offset(self@, clip_left(self@, offset as int)),
            p.column == clip_left(self@, offset as int) - byte_len(
                self@.take(line_start_char(self@, p.row as int)),
            ),
    {
        let o = self.clip_offset(offset, Bias::Left);
        proof {
            lemma_char_of_byte_floor(self@, o as int);
        }
        let ci = rope_byte_to_char(&self.rope, o);
        let row = rope_char_to_line(&self.rope, ci);
        proof {
            lemma_count_nl_prefix(self@, ci as int);
            lemma_line_start_char_props(self@, row as int);
            lemma_line_start_min(self@, row as int, ci as int);
            lemma_byte_len_take_mono(self@, line_start_char(self@, row as int), ci as int);
            lemma_boundary_iff_floor_exact(self@, o as int);
        }
        let sc = rope_line_to_char(&self.rope, row);
        let ls = rope_char_to_byte(&self.rope, sc);
        Point::new(row, o - ls)
    }

    /// Byte offset of a row and byte-column pair; rows past the end
    /// map to the end of the text.
    pub fn point_to_offset(&self, point: Point) -> (n: usize)
        requires
            byte_len(self@) + point.column <= usize::MAX,
        ensures
            n == if point.row as int > count_nl(self@) {
                byte_len(self@)
            } else {
                byte_len(self@.take(line_start_char(self@, point.row as int)))
                    + point.column
            },
    {
        let nl = rope_len_lines(&self.rope);
        if point.row >= nl {
            return rope_len_bytes(&self.rope);
        }
        proof {
            lemma_line_start_char_props(self@, point.row as int);
            lemma_byte_len_take_mono(self@, line_start_char(self@, point.row as int),
                self@.len() as int);
            assert(self@.take(self@.len() as int) =~= self@);
        }
        let sc = rope_line_to_char(&self.rope, point.row);
        let ls = rope_char_to_byte(&self.rope, sc);
        ls + point.column
    }

    /// Byte offset of a 0-based line/character position; the character
    /// count clamps to the line's length, and lines past the end map
    /// to the end of the text.
    pub fn position_to_offset(&self, pos: &Position) -> (n: usize)
        ensures
            n == position_to_offset_spec(self@, pos.line as int, pos.character as int),
    {
        let nl = rope_len_lines(&self.rope);
        if pos.line >= nl {
            return rope_len_bytes(&self.rope);
        }
        let (sc, ec) = self.line_char_bounds(pos.line);
        let n: usize = if pos.character <= ec - sc {
            pos.character
        } else {
            ec - sc
        };
        rope_char_to_byte(&self.rope, sc + n)
    }

    /// Line and character of `offset`, after clipping it down to a
    /// character boundary; the character is the Unicode scalar count
    /// from the start of the line.
    pub fn offset_to_position(&self, offset: usize) -> (p: Position)
        ensures
            p.line == row_of_offset(self@, clip_left(self@, offset as int)),
            p.character == char_of_byte(self@, clip_left(self@, offset as int))
                - line_start_char(self@, p.line as int),
    {
        let o = self.clip_offset(offset, Bias::Left);
        proof {
            lemma_char_of_byte_floor(self@, o as int);
            lemma_boundary_iff_floor_exact(self@, o as int);
        }
        let ci = rope_byte_to_char(&self.rope, o);
        let row = rope_char_to_line(&self.rope, ci);
        proof {
            lemma_count_nl_prefix(self@, ci as int);
            lemma_line_start_char_props(self@, row as int);
            lemma_line_start_min(self@, row as int, ci as int);
        }
        let sc = rope_line_to_char(&self.rope, row);
        Position { line: row, character: ci - sc }
    }

    /// UTF-16 offset of a byte offset; out-of-bounds offsets map to
    /// the UTF-16 length of the text.
    pub fn offset_to_offset_utf16(&self, offset: usize) -> (n: usize)
        ensures
            n == if offset as int > byte_len(self@) {
                utf16_len(self@)
            } else {
                utf16_len(self@.take(char_of_byte(self@, offset as int)))
            },
    {
        let len = rope_len_bytes(&self.rope);
        if offset > len {
            return rope_len_utf16(&self.rope);
        }
        proof {
            lemma_char_of_byte_floor(self@, offset as int);
        }
        let ci = rope_byte_to_char(&self.rope, offset);
        rope_char_to_utf16(&self.rope, ci)
    }

    /// Byte offset of a UTF-16 offset; out-of-bounds offsets map to
    /// the byte length of the text.
    pub fn offset_utf16_to_offset(&self, offset_utf16: usize) -> (n: usize)
        ensures
            n == if offset_utf16 as int > utf16_len(self@) {
                byte_len(self@)
            } else {
                byte_len(self@.take(char_of_utf16(self@, offset_utf16 as int)))
            },
    {
        let len16 = rope_len_utf16(&self.rope);
        if offset_utf16 > len16 {
            return rope_len_bytes(&self.rope);
        }
        proof {
            lemma_char_of_utf16_floor(self@, offset_utf16 as int);
        }
        let ci = rope_utf16_to_char(&self.rope, offset_utf16);
        rope_char_to_byte(&self.rope, ci)
    }

    /// Replaces the byte range (which must lie on character
    /// boundaries) with `new_text`.
    pub fn replace(&mut self, range: Selection, new_text: &str)
        requires
            range.start <= range.end <= byte_len(old(self)@),
            is_boundary(old(self)@, range.start as int),
            is_boundary(old(self)@, range.end as int),
        ensures
            final(self)@ == old(self)@.take(char_of_byte(old(self)@, range.start as int))
                + new_text@ + old(self)@.skip(char_of_byte(old(self)@, range.end as int)),
    {
        proof {
            lemma_char_of_byte_floor(self@, range.start as int);
            lemma_char_of_byte_floor(self@, range.end as int);
            lemma_boundary_iff_floor_exact(self@, range.start as int);
            lemma_boundary_iff_floor_exact(self@, range.end as int);
            if char_of_byte(self@, range.start as int) > char_of_byte(self@, range.end as int) {
                lemma_byte_len_take_mono(
                    self@,
                    char_of_byte(self@, range.end as int),
                    char_of_byte(self@, range.start as int),
                );
            }
        }
        let ghost s0 = self@;
        let ghost ca = char_of_byte(s0, range.start as int);
        let ghost cb = char_of_byte(s0, range.end as int);
        let a = rope_byte_to_char(&self.rope, range.start);
        let b = rope_byte_to_char(&self.rope, range.end);
        rope_remove(&mut self.rope, a, b);
        proof {
            assert(self@.take(ca) =~= s0.take(ca));
            assert(self@.skip(ca) =~= s0.skip(cb));
        }
        rope_insert(&mut self.rope, a, new_text);
        proof {
            assert(self@ =~= s0.take(ca) + new_text@ + s0.skip(cb));
        }
    }

    /// The character whose encoding covers byte `offset`, or `None`
    /// past the end.
    pub fn char_at(&self, offset: usize) -> (r: Option<char>)
        ensures
            offset < byte_len(self@) ==> r == Some(self@[char_of_byte(self@, offset as int)]),
            offset >= byte_len(self@) ==> r is None,
    {
        let len = rope_len_bytes(&self.rope);
        if offset >= len {
            return None;
        }
        proof {
            lemma_char_of_byte_floor(self@, offset as int);
        }
        let ci = rope_byte_to_char(&self.rope, offset);
        Some(rope_char(&self.rope, ci))
    }

    /// The byte range of the word around `offset`: the run of
    /// alphanumeric-or-underscore characters touching the character
    /// that covers `offset`. `None` past the end or when the run is
    /// empty.
    pub fn word_range(&self, offset: usize) -> (r: Option<Selection>)
        ensures
            offset as int >= byte_len(self@) ==> r is None,
            (offset as int) < byte_len(self@) ==> {
                let a = word_start_char(self@, char_of_byte(self@, offset as int));
                let b = word_end_char(self@, char_of_byte(self@, offset as int));
                if a == b {
                    r is None
                } else {
                    r == Some(
                        Selection {
                            start: byte_len(self@.take(a)) as usize,
                            end: byte_len(self@.take(b)) as usize,
                        },
                    )
                }
            },
    {
        let len = rope_len_bytes(&self.rope);
        if offset >= len {
            return None;
        }
        proof {
            lemma_char_of_byte_floor(self@, offset as int);
            lemma_byte_len_bounds(self@);
        }
        let ci = rope_byte_to_char(&self.rope, offset);
        let n_chars = rope_len_chars(&self.rope);

        let mut a = ci;
        loop
            invariant
                a <= ci < self@.len(),
                word_start_char(self@, a as int) == word_start_char(self@, ci as int),
            ensures
                a == word_start_char(self@, ci as int),
            decreases a,
        {
            if a == 0 {
                break;
            }
            let c = rope_char(&self.rope, a - 1);
            let w = is_word_char_exec(c);
            if !w {
                break;
            }
            a = a - 1;
        }

        let mut b = ci;
        loop
            invariant
                ci <= b <= self@.len(),
                b <= n_chars,
                n_chars == self@.len(),
                word_end_char(self@, b as int) == word_end_char(self@, ci as int),
            ensures
                b == word_end_char(self@, ci as int),
            decreases n_chars - b,
        {
            if b == n_chars {
                break;
            }
            let c = rope_char(&self.rope, b);
            let w = is_word_char_exec(c);
            if !w {
                break;
            }
            b = b + 1;
        }

        if a == b {
            None
        } else {
            let sa = rope_char_to_byte(&self.rope, a);
            let sb = rope_char_to_byte(&self.rope, b);
            Some(Selection::new(sa, sb))
        }
    }

    /// The word around `offset`, or the empty string where
    /// `word_range` finds none.
    pub fn word_at(&self, offset: usize) -> (r: String)
        ensures
            offset as int >= byte_len(self@) ==> r@ == Seq::<char>::empty(),
            (offset as int) < byte_len(self@) ==> r@ == self@.subrange(
                word_start_char(self@, char_of_byte(self@, offset as int)),
                word_end_char(self@, char_of_byte(self@, offset as int)),
            ),
    {
        let len_b = self.len();
        if offset >= len_b {
            return String::new();
        }
        proof {
            let ci = char_of_byte(self@, offset as int);
            lemma_char_of_byte_floor(self@, offset as int);
            lemma_word_run_bounds(self@, ci);
        }
        match self.word_range(offset) {
            Some(range) => {
                proof {
                    let ci = char_of_byte(self@, offset as int);
                    let a = word_start_char(self@, ci);
                    let b = word_end_char(self@, ci);
                    assert(self@.take(0) =~= Seq::<char>::empty());
                    lemma_byte_len_take_mono(self@, 0, a);
                    lemma_byte_len_take_mono(self@, a, b);
                    lemma_byte_len_take_mono(self@, b, self@.len() as int);
                    assert(self@.take(self@.len() as int) =~= self@);
                    assert(is_boundary(self@, byte_len(self@.take(a))));
                    assert(is_boundary(self@, byte_len(self@.take(b))));
                    lemma_char_of_byte_at_boundary(self@, a);
                    lemma_char_of_byte_at_boundary(self@, b);
                }
                self.slice(range)
            },
            None => {
                proof {
                    if (offset as int) < byte_len(self@) {
                        let ci = char_of_byte(self@, offset as int);
                        let a = word_start_char(self@, ci);
                        assert(self@.subrange(a, a) =~= Seq::<char>::empty());
                    }
                }
                String::new()
            },
        }
    }

    /// Inserts `text` at a byte offset on a character boundary.
    pub fn insert(&mut self, offset: usize, text: &str)
        requires
            offset as int <= byte_len(old(self)@),
            is_boundary(old(self)@, offset as int),
        ensures
            final(self)@ == old(self)@.take(char_of_byte(old(self)@, offset as int)) + text@
                + old(self)@.skip(char_of_byte(old(self)@, offset as int)),
    {
        self.replace(Selection::new(offset, offset), text);
    }

    /// Removes the byte range, which must lie on character boundaries.
    pub fn remove(&mut self, range: Selection)
        requires
            range.start <= range.end <= byte_len(old(self)@),
            is_boundary(old(self)@, range.start as int),
            is_boundary(old(self)@, range.end as int),
        ensures
            final(self)@ == old(self)@.take(char_of_byte(old(self)@, range.start as int))
                + old(self)@.skip(char_of_byte(old(self)@, range.end as int)),
    {
        self.replace(range, "");
        proof {
            reveal_strlit("");
            assert(""@ =~= Seq::<char>::empty());
            assert(final(self)@ =~= old(self)@.take(char_of_byte(old(self)@, range.start as int))
                + old(self)@.skip(char_of_byte(old(self)@, range.end as int)));
        }
    }

    /// Byte offset of a one-based-column line/column pair, as
    /// diagnostic sources hand them out: the line value is taken as a
    /// row index and the column is counted from one.
    pub fn line_column_to_offset(&self, line_col: &crate::cursor::LineColumn) -> (n: usize)
        ensures
            n == position_to_offset_spec(
                self@,
                line_col.line as int,
                (if line_col.column > 0 {
                    (line_col.column - 1) as int
                } else {
                    0
                }),
            ),
    {
        let character: usize = if line_col.column > 0 {
            line_col.column - 1
        } else {
            0
        };
        self.position_to_offset(&Position { line: line_col.line, character })
    }
}

/// The word run around a character index stays inside the text and is
/// ordered: start at or before the index, end at or after it.
pub proof fn lemma_word_run_bounds(s: Seq<char>, i: int)
    requires
        0 <= i <= s.len(),
    ensures
        0 <= word_start_char(s, i) <= i,
        i <= word_end_char(s, i) <= s.len(),
    decreases s.len() - i + i,
{
    lemma_word_start_bounds(s, i);
    lemma_word_end_bounds(s, i);
}

proof fn lemma_word_start_bounds(s: Seq<char>, i: int)
    requires
        0 <= i <= s.len(),
    ensures
        0 <= word_start_char(s, i) <= i,
    decreases i,
{
    if 0 < i && is_word_char(s[i - 1]) {
        lemma_word_start_bounds(s, i - 1);
    }
}

proof fn lemma_word_end_bounds(s: Seq<char>, i: int)
    requires
        0 <= i <= s.len(),
    ensures
        i <= word_end_char(s, i) <= s.len(),
    decreases s.len() - i,
{
    if i < s.len() && is_word_char(s[i]) {
        lemma_word_end_bounds(s, i + 1);
    }
}

/// Round trip of the position conversions: a byte offset on a
/// character boundary, taken to its line/character position the way
/// `offset_to_position` states it, comes back unchanged through
/// `position_to_offset`.
pub proof fn lemma_position_round_trip(s: Seq<char>, o: int)
    requires
        0 <= o <= byte_len(s),
        is_boundary(s, o),
    ensures
        ({
            let ci = char_of_byte(s, o);
            let line = count_nl(s.take(ci));
            let character = ci - line_start_char(s, line);
            position_to_offset_spec(s, line, character) == o
        }),
{
    let ci = char_of_byte(s, o);
    lemma_char_of_byte_floor(s, o);
    lemma_boundary_iff_floor_exact(s, o);
    let line = count_nl(s.take(ci));
    lemma_count_nl_prefix(s, ci);
    lemma_line_bounds(s, line);
    lemma_line_start_min(s, line, ci);
    let sc = line_start_char(s, line);
    let ec = line_end_char(s, line);
    if ci > ec {
        if line < count_nl(s) {
            lemma_line_start_char_props(s, line + 1);
            lemma_count_nl_take_mono(s, line_start_char(s, line + 1), ci);
            assert(false);
        } else {
            assert(false);
        }
    }
    assert(position_to_offset_spec(s, line, ci - sc) == byte_len(s.take(ci)));
}

/// Round trip of the UTF-16 conversions, byte side: a byte offset on
/// a character boundary goes to its UTF-16 offset and back unchanged.
pub proof fn lemma_utf16_round_trip(s: Seq<char>, o: int)
    requires
        0 <= o <= byte_len(s),
        is_boundary(s, o),
    ensures
        ({
            let u = utf16_len(s.take(char_of_byte(s, o)));
            0 <= u <= utf16_len(s) && byte_len(s.take(char_of_utf16(s, u))) == o
        }),
{
    let ci = char_of_byte(s, o);
    lemma_char_of_byte_floor(s, o);
    lemma_boundary_iff_floor_exact(s, o);
    crate::unicode::lemma_utf16_len_split(s, ci);
    crate::unicode::lemma_utf16_len_bounds(s.skip(ci));
    crate::unicode::lemma_utf16_len_bounds(s.take(ci));
    crate::unicode::lemma_char_of_utf16_at_boundary(s, ci);
}

/// Round trip of the UTF-16 conversions, code-unit side: a UTF-16
/// offset on a character boundary goes to its byte offset and back
/// unchanged.
pub proof fn lemma_utf16_round_trip_units(s: Seq<char>, u: int)
    requires
        0 <= u <= utf16_len(s),
        crate::unicode::is_utf16_boundary(s, u),
    ensures
        ({
            let o = byte_len(s.take(char_of_utf16(s, u)));
            0 <= o <= byte_len(s) && utf16_len(s.take(char_of_byte(s, o))) == u
        }),
{
    let ci = char_of_utf16(s, u);
    lemma_char_of_utf16_floor(s, u);
    crate::unicode::lemma_utf16_boundary_iff_floor_exact(s, u);
    lemma_byte_len_split(s, ci);
    lemma_byte_len_bounds(s.skip(ci));
    lemma_byte_len_bounds(s.take(ci));
    lemma_char_of_byte_at_boundary(s, ci);
}

} // verus!
