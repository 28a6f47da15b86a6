//! Decomposition of a text into newline-delimited lines.
//!
//! Rows are numbered from zero; row `r` spans the characters between the
//! `r`-th newline (exclusive) and the next newline (or the end of text).
//! The stability lemmas at the bottom say that an edit confined to a
//! character range only disturbs the rows that touch it — the ground the
//! incremental soft-wrap engine stands on.

use vstd::prelude::*;
use crate::unicode::{count_nl, line_start_char, lemma_count_nl_bounds, lemma_count_nl_split,
    lemma_count_nl_take_succ, lemma_line_start_char_props, lemma_line_start_char_mono};

verus! {

/// Character index one past the content of row `r`, excluding the
/// newline that terminates it.
pub open spec fn line_end_char(s: Seq<char>, r: int) -> int {
    if r >= count_nl(s) {
        s.len() as int
    } else {
        line_start_char(s, r + 1) - 1
    }
}

/// The content of row `r`: its characters without the terminating
/// newline, but with a carriage return if one precedes it.
pub open spec fn line_text(s: Seq<char>, r: int) -> Seq<char> {
    if 0 <= r <= count_nl(s) {
        s.subrange(line_start_char(s, r), line_end_char(s, r))
    } else {
        Seq::empty()
    }
}

/// Newline counts of prefixes grow with the prefix.
pub proof fn lemma_count_nl_take_mono(s: Seq<char>, i: int, j: int)
    requires
        0 <= i <= j <= s.len(),
    ensures
        count_nl(s.take(i)) <= count_nl(s.take(j)) <= count_nl(s.take(i)) + (j - i),
{
    assert(s.take(j).take(i) =~= s.take(i));
    lemma_count_nl_split(s.take(j), i);
    lemma_count_nl_bounds(s.take(j).skip(i));
}

/// The whole text counts at least as many newlines as any prefix.
pub proof fn lemma_count_nl_prefix(s: Seq<char>, i: int)
    requires
        0 <= i <= s.len(),
    ensures
        count_nl(s.take(i)) <= count_nl(s),
        0 <= count_nl(s.take(i)),
{
    lemma_count_nl_split(s, i);
    lemma_count_nl_bounds(s.skip(i));
    lemma_count_nl_bounds(s.take(i));
}

/// A row starts no later than any position that already has `r`
/// newlines before it.
pub proof fn lemma_line_start_min(s: Seq<char>, r: int, k: int)
    requires
        0 <= k <= s.len(),
        0 <= r <= count_nl(s.take(k)),
    ensures
        line_start_char(s, r) <= k,
    decreases s.len(),
{
    lemma_count_nl_bounds(s.take(k));
    if r == 0 || k == 0 || s.len() == 0 {
        assert(s.take(0) =~= Seq::<char>::empty());
    } else {
        let d: int = if s[0] == '\n' {
            1
        } else {
            0
        };
        assert(s.take(k).skip(1) =~= s.skip(1).take(k - 1));
        assert(count_nl(s.take(k)) == d + count_nl(s.skip(1).take(k - 1)));
        lemma_line_start_min(s.skip(1), r - d, k - 1);
    }
}

/// Well-formedness of one row: its bounds are ordered, its start has
/// exactly `r` newlines before it, and a newline follows every row but
/// the last.
pub proof fn lemma_line_bounds(s: Seq<char>, r: int)
    requires
        0 <= r <= count_nl(s),
    ensures
        0 <= line_start_char(s, r) <= line_end_char(s, r) <= s.len(),
        count_nl(s.take(line_start_char(s, r))) == r,
        r < count_nl(s) ==> line_end_char(s, r) < s.len() && s[line_end_char(s, r)] == '\n',
{
    lemma_count_nl_bounds(s);
    lemma_line_start_char_props(s, r);
    if r < count_nl(s) {
        lemma_line_start_char_props(s, r + 1);
        lemma_line_start_char_mono(s, r, r + 1);
        if line_start_char(s, r) == line_start_char(s, r + 1) {
            assert(count_nl(s.take(line_start_char(s, r))) == r);
            assert(false);
        }
    }
}

/// No character strictly inside a row is a newline.
pub proof fn lemma_line_no_nl(s: Seq<char>, r: int, j: int)
    requires
        0 <= r <= count_nl(s),
        line_start_char(s, r) <= j < line_end_char(s, r),
    ensures
        s[j] != '\n',
{
    lemma_line_bounds(s, r);
    if s[j] == '\n' {
        lemma_count_nl_take_succ(s, j);
        lemma_count_nl_take_mono(s, line_start_char(s, r), j);
        if r < count_nl(s) {
            lemma_line_start_min(s, r + 1, j + 1);
        } else {
            assert(s.take(s.len() as int) =~= s);
            lemma_count_nl_take_mono(s, j + 1, s.len() as int);
        }
        assert(false);
    }
}

/// A sequence without newlines counts zero of them.
pub proof fn lemma_count_nl_zero(s: Seq<char>)
    requires
        forall|i: int| 0 <= i < s.len() ==> s[i] != '\n',
    ensures
        count_nl(s) == 0,
    decreases s.len(),
{
    if s.len() > 0 {
        lemma_count_nl_zero(s.skip(1));
    }
}

/// The content of a row holds no newline at all.
pub proof fn lemma_line_text_no_nl(s: Seq<char>, r: int)
    ensures
        count_nl(line_text(s, r)) == 0,
        forall|j: int| 0 <= j < line_text(s, r).len() ==> line_text(s, r)[j] != '\n',
{
    if 0 <= r <= count_nl(s) {
        lemma_line_bounds(s, r);
        assert forall|j: int| 0 <= j < line_text(s, r).len() implies line_text(s, r)[j]
            != '\n' by {
            lemma_line_no_nl(s, r, line_start_char(s, r) + j);
        }
    }
    lemma_count_nl_zero(line_text(s, r));
}

/// Texts that agree on a prefix agree on every row that the prefix
/// fully determines.
pub proof fn lemma_line_start_prefix(s1: Seq<char>, s2: Seq<char>, n: int, r: int)
    requires
        0 <= n <= s1.len(),
        n <= s2.len(),
        s1.take(n) =~= s2.take(n),
        0 <= r <= count_nl(s1.take(n)),
    ensures
        line_start_char(s1, r) == line_start_char(s2, r),
        line_start_char(s1, r) <= n,
    decreases n,
{
    lemma_line_start_min(s1, r, n);
    if r == 0 || n == 0 {
    } else {
        assert(s1[0] == s1.take(n)[0]);
        assert(s2[0] == s2.take(n)[0]);
        let d: int = if s1[0] == '\n' {
            1
        } else {
            0
        };
        assert(s1.take(n).skip(1) =~= s1.skip(1).take(n - 1));
        assert(s2.take(n).skip(1) =~= s2.skip(1).take(n - 1));
        assert(count_nl(s1.take(n)) == d + count_nl(s1.skip(1).take(n - 1)));
        lemma_line_start_prefix(s1.skip(1), s2.skip(1), n - 1, r - d);
    }
}

/// A row that begins past a cut point is the cut point plus the
/// corresponding row start of the tail.
pub proof fn lemma_line_start_split(s: Seq<char>, m: int, r: int)
    requires
        0 <= m <= s.len(),
        r > count_nl(s.take(m)),
    ensures
        line_start_char(s, r) == m + line_start_char(s.skip(m), r - count_nl(s.take(m))),
    decreases m,
{
    lemma_count_nl_bounds(s.take(m));
    if m == 0 {
        assert(s.take(0) =~= Seq::<char>::empty());
        assert(s.skip(0) =~= s);
    } else {
        let d: int = if s[0] == '\n' {
            1
        } else {
            0
        };
        assert(s.take(m).skip(1) =~= s.skip(1).take(m - 1));
        assert(count_nl(s.take(m)) == d + count_nl(s.skip(1).take(m - 1)));
        lemma_line_start_split(s.skip(1), m - 1, r - d);
        assert(s.skip(1).skip(m - 1) =~= s.skip(m));
    }
}

/// Rows that end before a shared prefix does are the same in both
/// texts.
pub proof fn lemma_line_text_prefix_stable(s1: Seq<char>, s2: Seq<char>, n: int, r: int)
    requires
        0 <= n <= s1.len(),
        n <= s2.len(),
        s1.take(n) =~= s2.take(n),
        0 <= r < count_nl(s1.take(n)),
    ensures
        line_text(s1, r) == line_text(s2, r),
{
    lemma_count_nl_prefix(s1, n);
    lemma_count_nl_prefix(s2, n);
    assert(count_nl(s2.take(n)) == count_nl(s1.take(n)));
    lemma_line_start_prefix(s1, s2, n, r);
    lemma_line_start_prefix(s1, s2, n, r + 1);
    lemma_line_bounds(s1, r);
    lemma_line_bounds(s2, r);
    let a = line_start_char(s1, r);
    let b = line_end_char(s1, r);
    assert(line_end_char(s2, r) == b);
    assert forall|x: int| a <= x < b implies s1[x] == s2[x] by {
        assert(s1[x] == s1.take(n)[x]);
        assert(s2[x] == s2.take(n)[x]);
    }
    assert(line_text(s1, r) =~= line_text(s2, r));
}

/// Rows that start after a shared suffix begins are the same in both
/// texts, shifted by the difference in rows before the suffix; and
/// both texts have the same number of rows after the suffix begins.
pub proof fn lemma_line_text_suffix_stable(s1: Seq<char>, s2: Seq<char>, m1: int, m2: int, t: int)
    requires
        0 <= m1 <= s1.len(),
        0 <= m2 <= s2.len(),
        s1.skip(m1) =~= s2.skip(m2),
        1 <= t,
        count_nl(s1.take(m1)) + t <= count_nl(s1),
    ensures
        count_nl(s1) - count_nl(s1.take(m1)) == count_nl(s2) - count_nl(s2.take(m2)),
        line_text(s1, count_nl(s1.take(m1)) + t) == line_text(s2, count_nl(s2.take(m2)) + t),
{
    lemma_count_nl_split(s1, m1);
    lemma_count_nl_split(s2, m2);
    let tail = s1.skip(m1);
    let k1 = count_nl(s1.take(m1));
    let k2 = count_nl(s2.take(m2));
    let r1 = k1 + t;
    let r2 = k2 + t;
    lemma_count_nl_prefix(s1, m1);
    lemma_count_nl_prefix(s2, m2);
    lemma_line_start_split(s1, m1, r1);
    lemma_line_start_split(s2, m2, r2);
    lemma_line_bounds(s1, r1);
    lemma_line_bounds(s2, r2);
    let a = line_start_char(tail, t);
    crate::unicode::lemma_line_start_char_props(tail, t);
    if r1 < count_nl(s1) {
        lemma_line_start_split(s1, m1, r1 + 1);
        lemma_line_start_split(s2, m2, r2 + 1);
        crate::unicode::lemma_line_start_char_props(tail, t + 1);
        let b = line_start_char(tail, t + 1);
        assert(line_text(s1, r1) =~= tail.subrange(a, b - 1));
        assert(line_text(s2, r2) =~= tail.subrange(a, b - 1));
    } else {
        assert(line_text(s1, r1) =~= tail.subrange(a, tail.len() as int));
        assert(line_text(s2, r2) =~= tail.subrange(a, tail.len() as int));
    }
}

} // verus!
