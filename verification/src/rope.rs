//! Trusted bridge to the `ropey` rope.
//!
//! The rope itself is opaque to verification; what it holds is named by
//! `rope_text`, and each wrapper below states, over that name, what one
//! `ropey` call does. Everything else in the crate is proved against
//! these contracts. The wrappers are built against `ropey` without its
//! optional line-break features, so the only recognized line break is
//! the newline character.

use vstd::prelude::*;
use crate::unicode::{byte_len, utf16_len, count_nl, char_of_byte, char_of_utf16, line_start_char};

verus! {

#[verifier::external_type_specification]
#[verifier::external_body]
pub struct ExRope(ropey::Rope);

/// The characters a rope holds, in order.
pub uninterp spec fn rope_text(r: ropey::Rope) -> Seq<char>;

/// Relies on `ropey::Rope::new`: an empty rope.
#[verifier::external_body]
pub(crate) fn rope_new() -> (r: ropey::Rope)
    ensures
        rope_text(r) == Seq::<char>::empty(),
{
    ropey::Rope::new()
}

/// Relies on `ropey::Rope::from_str`: a rope holding exactly `text`.
#[verifier::external_body]
pub(crate) fn rope_from_str(text: &str) -> (r: ropey::Rope)
    ensures
        rope_text(r) == text@,
{
    ropey::Rope::from_str(text)
}

/// Relies on `ropey::Rope::clone`: a clone holds the same text.
#[verifier::external_body]
pub(crate) fn rope_clone(r: &ropey::Rope) -> (c: ropey::Rope)
    ensures
        rope_text(c) == rope_text(*r),
{
    r.clone()
}

/// Relies on `ropey::Rope::eq`, which compares the held text.
#[verifier::external_body]
pub(crate) fn rope_eq(a: &ropey::Rope, b: &ropey::Rope) -> (r: bool)
    ensures
        r == (rope_text(*a) == rope_text(*b)),
{
    a == b
}

/// Relies on `ropey::Rope::len_bytes`: the UTF-8 length of the text.
#[verifier::external_body]
pub(crate) fn rope_len_bytes(r: &ropey::Rope) -> (n: usize)
    ensures
        n == byte_len(rope_text(*r)),
{
    r.len_bytes()
}

/// Relies on `ropey::Rope::len_chars`: the number of characters.
#[verifier::external_body]
pub(crate) fn rope_len_chars(r: &ropey::Rope) -> (n: usize)
    ensures
        n == rope_text(*r).len(),
{
    r.len_chars()
}

/// Relies on `ropey::Rope::len_utf16_cu`: the UTF-16 length of the text.
#[verifier::external_body]
pub(crate) fn rope_len_utf16(r: &ropey::Rope) -> (n: usize)
    ensures
        n == utf16_len(rope_text(*r)),
{
    r.len_utf16_cu()
}

/// Relies on `ropey::Rope::len_lines`: one more line than there are
/// newline characters (with `ropey`'s extra line-break features off).
#[verifier::external_body]
pub(crate) fn rope_len_lines(r: &ropey::Rope) -> (n: usize)
    ensures
        n == count_nl(rope_text(*r)) + 1,
{
    r.len_lines()
}

/// Relies on `ropey::Rope::byte_to_char`: the character the byte
/// belongs to; one past the end maps to one past the end.
#[verifier::external_body]
pub(crate) fn rope_byte_to_char(r: &ropey::Rope, byte_idx: usize) -> (n: usize)
    requires
        byte_idx <= byte_len(rope_text(*r)),
    ensures
        n == char_of_byte(rope_text(*r), byte_idx as int),
{
    r.byte_to_char(byte_idx)
}

/// Relies on `ropey::Rope::char_to_byte`: the byte where the character
/// starts.
#[verifier::external_body]
pub(crate) fn rope_char_to_byte(r: &ropey::Rope, char_idx: usize) -> (n: usize)
    requires
        char_idx <= rope_text(*r).len(),
    ensures
        n == byte_len(rope_text(*r).take(char_idx as int)),
{
    r.char_to_byte(char_idx)
}

/// Relies on `ropey::Rope::char_to_line`: the number of line endings
/// before the character.
#[verifier::external_body]
pub(crate) fn rope_char_to_line(r: &ropey::Rope, char_idx: usize) -> (n: usize)
    requires
        char_idx <= rope_text(*r).len(),
    ensures
        n == count_nl(rope_text(*r).take(char_idx as int)),
{
    r.char_to_line(char_idx)
}

/// Relies on `ropey::Rope::line_to_char`: the character where the line
/// starts; one past the last line maps to the end of the text.
#[verifier::external_body]
pub(crate) fn rope_line_to_char(r: &ropey::Rope, line_idx: usize) -> (n: usize)
    requires
        line_idx <= count_nl(rope_text(*r)) + 1,
    ensures
        n == line_start_char(rope_text(*r), line_idx as int),
{
    r.line_to_char(line_idx)
}

/// Relies on `ropey::Rope::char_to_utf16_cu`: the UTF-16 offset of the
/// character.
#[verifier::external_body]
pub(crate) fn rope_char_to_utf16(r: &ropey::Rope, char_idx: usize) -> (n: usize)
    requires
        char_idx <= rope_text(*r).len(),
    ensures
        n == utf16_len(rope_text(*r).take(char_idx as int)),
{
    r.char_to_utf16_cu(char_idx)
}

/// Relies on `ropey::Rope::utf16_cu_to_char`: the character the UTF-16
/// code unit belongs to.
#[verifier::external_body]
pub(crate) fn rope_utf16_to_char(r: &ropey::Rope, utf16_idx: usize) -> (n: usize)
    requires
        utf16_idx <= utf16_len(rope_text(*r)),
    ensures
        n == char_of_utf16(rope_text(*r), utf16_idx as int),
{
    r.utf16_cu_to_char(utf16_idx)
}

/// Relies on `ropey::Rope::char`: the character at the index.
#[verifier::external_body]
pub(crate) fn rope_char(r: &ropey::Rope, char_idx: usize) -> (c: char)
    requires
        char_idx < rope_text(*r).len(),
    ensures
        c == rope_text(*r)[char_idx as int],
{
    r.char(char_idx)
}

/// Relies on `ropey::Rope::insert`: splices `text` in at the character
/// index.
#[verifier::external_body]
pub(crate) fn rope_insert(r: &mut ropey::Rope, char_idx: usize, text: &str)
    requires
        char_idx <= rope_text(*old(r)).len(),
    ensures
        rope_text(*final(r)) == rope_text(*old(r)).take(char_idx as int) + text@ + rope_text(
            *old(r),
        ).skip(char_idx as int),
{
    r.insert(char_idx, text)
}

/// Relies on `ropey::Rope::remove`: deletes the character range.
#[verifier::external_body]
pub(crate) fn rope_remove(r: &mut ropey::Rope, char_start: usize, char_end: usize)
    requires
        char_start <= char_end <= rope_text(*old(r)).len(),
    ensures
        rope_text(*final(r)) == rope_text(*old(r)).take(char_start as int) + rope_text(
            *old(r),
        ).skip(char_end as int),
{
    r.remove(char_start..char_end)
}

/// Relies on `ropey::Rope::slice` and `String::from(RopeSlice)`: the
/// text of the character range as an owned string.
#[verifier::external_body]
pub(crate) fn rope_slice_string(r: &ropey::Rope, char_start: usize, char_end: usize) -> (s: String)
    requires
        char_start <= char_end <= rope_text(*r).len(),
    ensures
        s@ == rope_text(*r).subrange(char_start as int, char_end as int),
{
    String::from(r.slice(char_start..char_end))
}

} // verus!
