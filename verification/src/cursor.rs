//! Coordinate value types: byte-range selections, zero-based
//! line/character positions, one-based human-facing line/column pairs,
//! byte-based points and the clipping bias.

use vstd::prelude::*;

verus! {

/// Which way an offset inside a multi-byte character is pushed when it
/// is clipped to a character boundary.
#[derive(Debug, Clone, Copy, PartialEq, Eq, Structural)]
pub enum Bias {
    Left,
    Right,
}

/// A selection in the text, represented by start and end byte indices.
/// `start == end` is a caret without selected text.
#[derive(Debug, Clone, Copy, PartialEq, Eq, Structural)]
pub struct Selection {
    pub start: usize,
    pub end: usize,
}

impl Selection {
    pub fn new(start: usize, end: usize) -> (s: Self)
        ensures
            s == (Selection { start, end }),
    {
        Self { start, end }
    }

    /// Length in bytes; a reversed pair counts as empty.
    pub fn len(&self) -> (n: usize)
        ensures
            n == if self.start <= self.end {
                self.end - self.start
            } else {
                0
            },
    {
        if self.start <= self.end {
            self.end - self.start
        } else {
            0
        }
    }

    pub fn is_empty(&self) -> (r: bool)
        ensures
            r == (self.start == self.end),
    {
        self.start == self.end
    }

    /// Clears the selection, setting start and end to 0.
    pub fn clear(&mut self)
        ensures
            *final(self) == (Selection { start: 0usize, end: 0usize }),
    {
        self.start = 0;
        self.end = 0;
    }
}

impl Default for Selection {
    fn default() -> (s: Self)
        ensures
            s == (Selection { start: 0usize, end: 0usize }),
    {
        Self { start: 0, end: 0 }
    }
}

/// Line and character position (0-based); the character is counted in
/// Unicode scalar values of the line.
#[derive(Debug, Clone, Copy, PartialEq, Eq, Structural)]
pub struct Position {
    /// Line number (0-based).
    pub line: usize,
    /// The character offset (0-based) in the line.
    pub character: usize,
}

impl Position {
    pub fn new(line: usize, column: usize) -> (p: Self)
        ensures
            p == (Position { line, character: column }),
    {
        (line, column).into()
    }
}

impl Default for Position {
    fn default() -> (p: Self)
        ensures
            p == (Position { line: 0usize, character: 0usize }),
    {
        Self { line: 0, character: 0 }
    }
}

impl From<(usize, usize)> for Position {
    fn from(value: (usize, usize)) -> (p: Self)
        ensures
            p == (Position { line: value.0, character: value.1 }),
    {
        Self { line: value.0, character: value.1 }
    }
}

impl vstd::std_specs::convert::FromSpecImpl<(usize, usize)> for Position {
    open spec fn obeys_from_spec() -> bool {
        true
    }

    open spec fn from_spec(v: (usize, usize)) -> Self {
        Position { line: v.0, character: v.1 }
    }
}

/// The decimal digit character of a value below ten.
pub open spec fn dec_digit(d: int) -> char {
    if d == 0 {
        '0'
    } else if d == 1 {
        '1'
    } else if d == 2 {
        '2'
    } else if d == 3 {
        '3'
    } else if d == 4 {
        '4'
    } else if d == 5 {
        '5'
    } else if d == 6 {
        '6'
    } else if d == 7 {
        '7'
    } else if d == 8 {
        '8'
    } else {
        '9'
    }
}

/// The decimal digits of a non-negative number, most significant
/// first.
pub open spec fn dec_digits(n: int) -> Seq<char>
    recommends
        n >= 0,
    decreases n,
{
    if n < 10 {
        seq![dec_digit(n)]
    } else {
        dec_digits(n / 10) + seq![dec_digit(n % 10)]
    }
}

/// Relies on `core::fmt::Display` for `usize`, which prints the
/// decimal digits of each number.
#[verifier::external_body]
fn format_line_col(line: usize, column: usize) -> (r: String)
    ensures
        r@ == dec_digits(line as int) + seq![':'] + dec_digits(column as int),
{
    format!("{}:{}", line, column)
}

impl Position {
    /// The position as `line:column`, both displayed one-based.
    pub fn to_display_string(&self) -> (r: String)
        requires
            self.line < usize::MAX,
            self.character < usize::MAX,
        ensures
            r@ == dec_digits(self.line + 1) + seq![':'] + dec_digits(self.character + 1),
    {
        format_line_col(self.line + 1, self.character + 1)
    }
}

/// One-based line and column pair for human-facing coordinates, with
/// the column counted in Unicode scalar values.
#[derive(Debug, Clone, Copy, PartialEq, Eq, Structural)]
pub struct LineColumn {
    pub line: usize,
    pub column: usize,
}

impl LineColumn {
    pub fn new(line: usize, column: usize) -> (p: Self)
        ensures
            p == (LineColumn { line, column }),
    {
        Self { line, column }
    }
}

impl Default for LineColumn {
    fn default() -> (p: Self)
        ensures
            p == (LineColumn { line: 0usize, column: 0usize }),
    {
        Self { line: 0, column: 0 }
    }
}

/// A row and byte-column pair (both 0-based).
#[derive(Debug, Clone, Copy, PartialEq, Eq, Structural)]
pub struct Point {
    /// Row index (0-based).
    pub row: usize,
    /// Byte offset within the row (0-based).
    pub column: usize,
}

impl Point {
    pub fn new(row: usize, column: usize) -> (p: Self)
        ensures
            p == (Point { row, column }),
    {
        Self { row, column }
    }
}

} // verus!
