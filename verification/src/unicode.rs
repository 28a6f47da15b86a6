//! Length arithmetic for Unicode text viewed as a `Seq<char>`.
//!
//! Byte offsets into the UTF-8 encoding and code-unit offsets into the
//! UTF-16 encoding are both derived from per-character widths, so every
//! coordinate system of the buffer can be stated over one `Seq<char>`.

use vstd::prelude::*;

verus! {

/// Width in bytes of one character in UTF-8.
pub open spec fn char_bytes(c: char) -> int {
    if (c as u32) < 0x80 {
        1
    } else if (c as u32) < 0x800 {
        2
    } else if (c as u32) < 0x10000 {
        3
    } else {
        4
    }
}

/// Width in code units of one character in UTF-16.
pub open spec fn char_utf16(c: char) -> int {
    if (c as u32) < 0x10000 {
        1
    } else {
        2
    }
}

/// Length in bytes of the UTF-8 encoding of `s`.
pub open spec fn byte_len(s: Seq<char>) -> int
    decreases s.len(),
{
    if s.len() == 0 {
        0
    } else {
        char_bytes(s[0]) + byte_len(s.skip(1))
    }
}

/// Length in code units of the UTF-16 encoding of `s`.
pub open spec fn utf16_len(s: Seq<char>) -> int
    decreases s.len(),
{
    if s.len() == 0 {
        0
    } else {
        char_utf16(s[0]) + utf16_len(s.skip(1))
    }
}

/// Number of newline characters in `s`.
pub open spec fn count_nl(s: Seq<char>) -> int
    decreases s.len(),
{
    if s.len() == 0 {
        0
    } else {
        (if s[0] == '\n' {
            1int
        } else {
            0int
        }) + count_nl(s.skip(1))
    }
}

/// Index of the character whose UTF-8 encoding covers byte `b`, or
/// `s.len()` when `b` lies at or past the end of the encoding.
pub open spec fn char_of_byte(s: Seq<char>, b: int) -> int
    decreases s.len(),
{
    if s.len() == 0 {
        0
    } else if b < char_bytes(s[0]) {
        0
    } else {
        1 + char_of_byte(s.skip(1), b - char_bytes(s[0]))
    }
}

/// Index of the character whose UTF-16 encoding covers code unit `u`,
/// or `s.len()` when `u` lies at or past the end of the encoding.
pub open spec fn char_of_utf16(s: Seq<char>, u: int) -> int
    decreases s.len(),
{
    if s.len() == 0 {
        0
    } else if u < char_utf16(s[0]) {
        0
    } else {
        1 + char_of_utf16(s.skip(1), u - char_utf16(s[0]))
    }
}

/// `b` is a byte offset on a character boundary of `s` (the end counts).
pub open spec fn is_boundary(s: Seq<char>, b: int) -> bool {
    exists|i: int| 0 <= i <= s.len() && b == byte_len(#[trigger] s.take(i))
}

/// `u` is a UTF-16 offset on a character boundary of `s` (the end
/// counts).
pub open spec fn is_utf16_boundary(s: Seq<char>, u: int) -> bool {
    exists|i: int| 0 <= i <= s.len() && u == utf16_len(#[trigger] s.take(i))
}

/// Character index of the start of line `r` (lines are separated by
/// newline characters); one past the last line this is `s.len()`.
pub open spec fn line_start_char(s: Seq<char>, r: int) -> int
    decreases s.len(),
{
    if r <= 0 || s.len() == 0 {
        0
    } else if s[0] == '\n' {
        1 + line_start_char(s.skip(1), r - 1)
    } else {
        1 + line_start_char(s.skip(1), r)
    }
}

pub proof fn lemma_byte_len_bounds(s: Seq<char>)
    ensures
        s.len() <= byte_len(s) <= 4 * s.len(),
    decreases s.len(),
{
    if s.len() > 0 {
        lemma_byte_len_bounds(s.skip(1));
    }
}

pub proof fn lemma_utf16_len_bounds(s: Seq<char>)
    ensures
        s.len() <= utf16_len(s) <= 2 * s.len(),
    decreases s.len(),
{
    if s.len() > 0 {
        lemma_utf16_len_bounds(s.skip(1));
    }
}

pub proof fn lemma_count_nl_bounds(s: Seq<char>)
    ensures
        0 <= count_nl(s) <= s.len(),
    decreases s.len(),
{
    if s.len() > 0 {
        lemma_count_nl_bounds(s.skip(1));
    }
}

/// `byte_len` agrees with the length of the UTF-8 encoding, and so
/// with what `str::len` returns on a string holding `s`.
pub proof fn lemma_encode_utf8_len(s: Seq<char>)
    ensures
        vstd::utf8::encode_utf8(s).len() == byte_len(s),
    decreases s.len(),
{
    if s.len() > 0 {
        lemma_encode_utf8_len(s.skip(1));
        assert(s.drop_first() =~= s.skip(1));
        vstd::utf8::char_is_scalar(s[0]);
        assert(vstd::utf8::encode_scalar(s[0] as u32).len() == char_bytes(s[0]));
    }
}

pub proof fn lemma_byte_len_concat(a: Seq<char>, b: Seq<char>)
    ensures
        byte_len(a + b) == byte_len(a) + byte_len(b),
    decreases a.len(),
{
    if a.len() == 0 {
        assert(a + b =~= b);
    } else {
        assert((a + b).skip(1) =~= a.skip(1) + b);
        lemma_byte_len_concat(a.skip(1), b);
    }
}

pub proof fn lemma_utf16_len_concat(a: Seq<char>, b: Seq<char>)
    ensures
        utf16_len(a + b) == utf16_len(a) + utf16_len(b),
    decreases a.len(),
{
    if a.len() == 0 {
        assert(a + b =~= b);
    } else {
        assert((a + b).skip(1) =~= a.skip(1) + b);
        lemma_utf16_len_concat(a.skip(1), b);
    }
}

pub proof fn lemma_count_nl_concat(a: Seq<char>, b: Seq<char>)
    ensures
        count_nl(a + b) == count_nl(a) + count_nl(b),
    decreases a.len(),
{
    if a.len() == 0 {
        assert(a + b =~= b);
    } else {
        assert((a + b).skip(1) =~= a.skip(1) + b);
        lemma_count_nl_concat(a.skip(1), b);
    }
}

/// Splitting `s` at any index splits its byte length.
pub proof fn lemma_byte_len_split(s: Seq<char>, i: int)
    requires
        0 <= i <= s.len(),
    ensures
        byte_len(s) == byte_len(s.take(i)) + byte_len(s.skip(i)),
{
    assert(s =~= s.take(i) + s.skip(i));
    lemma_byte_len_concat(s.take(i), s.skip(i));
}

pub proof fn lemma_utf16_len_split(s: Seq<char>, i: int)
    requires
        0 <= i <= s.len(),
    ensures
        utf16_len(s) == utf16_len(s.take(i)) + utf16_len(s.skip(i)),
{
    assert(s =~= s.take(i) + s.skip(i));
    lemma_utf16_len_concat(s.take(i), s.skip(i));
}

pub proof fn lemma_count_nl_split(s: Seq<char>, i: int)
    requires
        0 <= i <= s.len(),
    ensures
        count_nl(s) == count_nl(s.take(i)) + count_nl(s.skip(i)),
{
    assert(s =~= s.take(i) + s.skip(i));
    lemma_count_nl_concat(s.take(i), s.skip(i));
}

/// One more character adds its width to the byte length of a prefix.
pub proof fn lemma_byte_len_take_succ(s: Seq<char>, i: int)
    requires
        0 <= i < s.len(),
    ensures
        byte_len(s.take(i + 1)) == byte_len(s.take(i)) + char_bytes(s[i]),
{
    assert(s.take(i + 1) =~= s.take(i) + seq![s[i]]);
    lemma_byte_len_concat(s.take(i), seq![s[i]]);
    assert(byte_len(seq![s[i]]) == char_bytes(s[i]) + byte_len(seq![s[i]].skip(1)));
    assert(seq![s[i]].skip(1) =~= Seq::<char>::empty());
}

pub proof fn lemma_count_nl_take_succ(s: Seq<char>, i: int)
    requires
        0 <= i < s.len(),
    ensures
        count_nl(s.take(i + 1)) == count_nl(s.take(i)) + (if s[i] == '\n' {
            1int
        } else {
            0int
        }),
{
    assert(s.take(i + 1) =~= s.take(i) + seq![s[i]]);
    lemma_count_nl_concat(s.take(i), seq![s[i]]);
    assert(count_nl(seq![s[i]]) == (if s[i] == '\n' {
        1int
    } else {
        0int
    }) + count_nl(seq![s[i]].skip(1)));
    assert(seq![s[i]].skip(1) =~= Seq::<char>::empty());
}

/// Byte lengths of prefixes grow strictly with the prefix.
pub proof fn lemma_byte_len_take_mono(s: Seq<char>, i: int, j: int)
    requires
        0 <= i <= j <= s.len(),
    ensures
        byte_len(s.take(i)) + (j - i) <= byte_len(s.take(j)),
        byte_len(s.take(j)) <= byte_len(s.take(i)) + 4 * (j - i),
{
    assert(s.take(j).take(i) =~= s.take(i));
    lemma_byte_len_split(s.take(j), i);
    lemma_byte_len_bounds(s.take(j).skip(i));
}

/// `char_of_byte` is the floor conversion: the character it picks
/// starts at or before `b`, and the next one starts after it.
pub proof fn lemma_char_of_byte_floor(s: Seq<char>, b: int)
    requires
        0 <= b,
    ensures
        0 <= char_of_byte(s, b) <= s.len(),
        b < byte_len(s) ==> char_of_byte(s, b) < s.len(),
        b >= byte_len(s) ==> char_of_byte(s, b) == s.len(),
        byte_len(s.take(char_of_byte(s, b))) <= b,
        char_of_byte(s, b) < s.len() ==> b < byte_len(s.take(char_of_byte(s, b) + 1)),
    decreases s.len(),
{
    if s.len() == 0 {
        assert(s.take(0) =~= s);
    } else if b < char_bytes(s[0]) {
        assert(s.take(0) =~= Seq::<char>::empty());
        assert(byte_len(s.take(1)) == char_bytes(s[0]) + byte_len(s.take(1).skip(1)));
        assert(s.take(1).skip(1) =~= Seq::<char>::empty());
        lemma_byte_len_bounds(s.skip(1));
    } else {
        let t = s.skip(1);
        lemma_char_of_byte_floor(t, b - char_bytes(s[0]));
        let k = char_of_byte(t, b - char_bytes(s[0]));
        assert(s.take(1 + k).skip(1) =~= t.take(k));
        assert(byte_len(s.take(1 + k)) == char_bytes(s[0]) + byte_len(t.take(k)));
        if k < t.len() {
            assert(s.take(1 + k + 1).skip(1) =~= t.take(k + 1));
            assert(byte_len(s.take(1 + k + 1)) == char_bytes(s[0]) + byte_len(t.take(k + 1)));
        }
    }
}

/// `char_of_utf16` is the floor conversion in UTF-16 code units.
pub proof fn lemma_char_of_utf16_floor(s: Seq<char>, u: int)
    requires
        0 <= u,
    ensures
        0 <= char_of_utf16(s, u) <= s.len(),
        u < utf16_len(s) ==> char_of_utf16(s, u) < s.len(),
        u >= utf16_len(s) ==> char_of_utf16(s, u) == s.len(),
        utf16_len(s.take(char_of_utf16(s, u))) <= u,
        char_of_utf16(s, u) < s.len() ==> u < utf16_len(s.take(char_of_utf16(s, u) + 1)),
    decreases s.len(),
{
    if s.len() == 0 {
        assert(s.take(0) =~= s);
    } else if u < char_utf16(s[0]) {
        assert(s.take(0) =~= Seq::<char>::empty());
        assert(utf16_len(s.take(1)) == char_utf16(s[0]) + utf16_len(s.take(1).skip(1)));
        assert(s.take(1).skip(1) =~= Seq::<char>::empty());
        lemma_utf16_len_bounds(s.skip(1));
    } else {
        let t = s.skip(1);
        lemma_char_of_utf16_floor(t, u - char_utf16(s[0]));
        let k = char_of_utf16(t, u - char_utf16(s[0]));
        assert(s.take(1 + k).skip(1) =~= t.take(k));
        assert(utf16_len(s.take(1 + k)) == char_utf16(s[0]) + utf16_len(t.take(k)));
        if k < t.len() {
            assert(s.take(1 + k + 1).skip(1) =~= t.take(k + 1));
            assert(utf16_len(s.take(1 + k + 1)) == char_utf16(s[0]) + utf16_len(t.take(k + 1)));
        }
    }
}

/// A UTF-16 prefix boundary maps back to its own character index.
pub proof fn lemma_char_of_utf16_at_boundary(s: Seq<char>, i: int)
    requires
        0 <= i <= s.len(),
    ensures
        char_of_utf16(s, utf16_len(s.take(i))) == i,
    decreases s.len(),
{
    if s.len() == 0 {
    } else if i == 0 {
        assert(s.take(0) =~= Seq::<char>::empty());
        lemma_utf16_len_bounds(s);
    } else {
        let t = s.skip(1);
        assert(s.take(i).skip(1) =~= t.take(i - 1));
        assert(utf16_len(s.take(i)) == char_utf16(s.take(i)[0]) + utf16_len(s.take(i).skip(1)));
        lemma_char_of_utf16_at_boundary(t, i - 1);
    }
}

/// A prefix boundary maps back to its own character index.
pub proof fn lemma_char_of_byte_at_boundary(s: Seq<char>, i: int)
    requires
        0 <= i <= s.len(),
    ensures
        char_of_byte(s, byte_len(s.take(i))) == i,
    decreases s.len(),
{
    if s.len() == 0 {
    } else if i == 0 {
        assert(s.take(0) =~= Seq::<char>::empty());
        lemma_byte_len_bounds(s);
    } else {
        let t = s.skip(1);
        assert(s.take(i).skip(1) =~= t.take(i - 1));
        assert(byte_len(s.take(i)) == char_bytes(s.take(i)[0]) + byte_len(s.take(i).skip(1)));
        lemma_char_of_byte_at_boundary(t, i - 1);
    }
}

/// Boundaries are exactly the byte offsets that `char_of_byte` hits.
pub proof fn lemma_boundary_iff_floor_exact(s: Seq<char>, b: int)
    requires
        0 <= b,
    ensures
        is_boundary(s, b) <==> b == byte_len(s.take(char_of_byte(s, b))),
{
    lemma_char_of_byte_floor(s, b);
    if is_boundary(s, b) {
        let i = choose|i: int| 0 <= i <= s.len() && b == byte_len(#[trigger] s.take(i));
        lemma_char_of_byte_at_boundary(s, i);
    } else {
        if b == byte_len(s.take(char_of_byte(s, b))) {
            assert(0 <= char_of_byte(s, b) <= s.len());
            assert(is_boundary(s, b));
        }
    }
}

/// UTF-16 boundaries are exactly the offsets that `char_of_utf16` hits.
pub proof fn lemma_utf16_boundary_iff_floor_exact(s: Seq<char>, u: int)
    requires
        0 <= u,
    ensures
        is_utf16_boundary(s, u) <==> u == utf16_len(s.take(char_of_utf16(s, u))),
{
    lemma_char_of_utf16_floor(s, u);
    if is_utf16_boundary(s, u) {
        let i = choose|i: int| 0 <= i <= s.len() && u == utf16_len(#[trigger] s.take(i));
        lemma_char_of_utf16_at_boundary(s, i);
    } else {
        if u == utf16_len(s.take(char_of_utf16(s, u))) {
            assert(0 <= char_of_utf16(s, u) <= s.len());
            assert(is_utf16_boundary(s, u));
        }
    }
}

/// `line_start_char` walks to the end once `r` exceeds the newline count.
pub proof fn lemma_line_start_char_props(s: Seq<char>, r: int)
    requires
        0 <= r,
    ensures
        0 <= line_start_char(s, r) <= s.len(),
        r <= count_nl(s) ==> count_nl(s.take(line_start_char(s, r))) == r,
        r <= count_nl(s) && r > 0 ==> line_start_char(s, r) > 0 && s[line_start_char(s, r) - 1]
            == '\n',
        r > count_nl(s) ==> line_start_char(s, r) == s.len(),
    decreases s.len(),
{
    lemma_count_nl_bounds(s);
    if r == 0 {
        assert(s.take(0) =~= Seq::<char>::empty());
    } else if s.len() == 0 {
    } else {
        let t = s.skip(1);
        let r2: int = if s[0] == '\n' {
            r - 1
        } else {
            r
        };
        lemma_line_start_char_props(t, r2);
        let k = line_start_char(t, r2);
        assert(s.take(1 + k).skip(1) =~= t.take(k));
        assert(count_nl(s.take(1 + k)) == (if s[0] == '\n' {
            1int
        } else {
            0int
        }) + count_nl(t.take(k)));
        if r2 > 0 && r2 <= count_nl(t) {
            assert(s[1 + k - 1] == t[k - 1]);
        }
    }
}

/// Rows are ordered: the start of a later row never comes earlier.
pub proof fn lemma_line_start_char_mono(s: Seq<char>, r1: int, r2: int)
    requires
        0 <= r1 <= r2,
    ensures
        line_start_char(s, r1) <= line_start_char(s, r2),
    decreases s.len(),
{
    if r1 == 0 || s.len() == 0 {
        lemma_line_start_char_props(s, r2);
    } else {
        let d: int = if s[0] == '\n' {
            1
        } else {
            0
        };
        lemma_line_start_char_mono(s.skip(1), r1 - d, r2 - d);
    }
}

} // verus!
