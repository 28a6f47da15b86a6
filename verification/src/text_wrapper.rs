//! The incremental soft-wrap engine.
//!
//! Each newline-delimited line of the buffer carries a cached list of
//! soft-wrap segments, byte sub-ranges of the line that together
//! partition it. On an edit only the touched rows are recomputed and
//! spliced in; the result is proved equal to what a full recomputation
//! of the whole text yields.

use vstd::prelude::*;
use crate::buffer::{TextBuffer, row_of_offset, clip_left};
use crate::cursor::Selection;
use crate::lines::{line_text, lemma_line_text_prefix_stable, lemma_line_text_suffix_stable,
    lemma_line_text_no_nl, lemma_count_nl_prefix, lemma_count_nl_take_mono};
use crate::unicode::{byte_len, count_nl, char_of_byte, is_boundary, lemma_encode_utf8_len,
    lemma_byte_len_concat, lemma_byte_len_split, lemma_byte_len_take_mono, lemma_byte_len_bounds,
    lemma_char_of_byte_floor, lemma_char_of_byte_at_boundary, lemma_boundary_iff_floor_exact,
    lemma_count_nl_split};

verus! {

/// Soft-wrap break offsets for one line are valid when they lie
/// strictly inside the line, on character boundaries, in strictly
/// increasing order.
pub open spec fn valid_wrap_boundaries(line: Seq<char>, bs: Seq<usize>) -> bool {
    &&& forall|i: int|
        0 <= i < bs.len() ==> 0 < #[trigger] bs[i] && (bs[i] as int) < byte_len(line)
            && is_boundary(line, bs[i] as int)
    &&& forall|i: int, j: int| 0 <= i < j < bs.len() ==> bs[i] < bs[j]
}

/// The segments cut out of a line of `total` bytes by the break
/// offsets `bs`: always one more segment than there are breaks, the
/// first starting at zero and the last ending at `total`.
pub open spec fn wrap_segments(bs: Seq<usize>, total: usize) -> Seq<Selection> {
    Seq::new(
        bs.len() + 1,
        |i: int|
            Selection {
                start: if i == 0 {
                    0usize
                } else {
                    bs[i - 1]
                },
                end: if i == bs.len() {
                    total
                } else {
                    bs[i]
                },
            },
    )
}

/// A line-shaping service: given one line of text and a wrap width,
/// it decides where the line breaks visually. Shaping is a pure
/// function of the line and the width, and its breaks are valid for
/// the line.
pub trait LineShaper: Sized {
    /// Where this shaper breaks `line` at `width`.
    spec fn wrap_spec(&self, line: Seq<char>, width: usize) -> Seq<usize>;

    /// The breaks are strictly increasing character boundaries inside
    /// the line, for any line a real buffer can hold.
    proof fn wrap_spec_valid(&self, line: Seq<char>, width: usize)
        requires
            byte_len(line) <= usize::MAX,
        ensures
            valid_wrap_boundaries(line, self.wrap_spec(line, width)),
    ;

    /// Computes the breaks of `line` at `width`.
    fn wrap_line(&self, line: &str, width: usize) -> (r: Vec<usize>)
        ensures
            r@ == self.wrap_spec(line@, width),
    ;
}

/// The break offsets a shaper yields under an optional width: no
/// width means no wrapping at all.
pub open spec fn shape_of<S: LineShaper>(
    shaper: S,
    line: Seq<char>,
    width: Option<usize>,
) -> Seq<usize> {
    match width {
        Option::None => Seq::<usize>::empty(),
        Option::Some(w) => shaper.wrap_spec(line, w),
    }
}

/// One logical line with its cached soft-wrap state.
pub struct LineItem {
    /// The line's text, without its terminating newline.
    pub line: String,
    /// The soft-wrapped segments as byte sub-ranges of the line,
    /// including the first segment.
    pub wrapped_lines: Vec<Selection>,
}

impl LineItem {
    /// The cached state is exactly what shaping row `row` of `text`
    /// at `width` produces.
    pub open spec fn wf<S: LineShaper>(
        &self,
        text: Seq<char>,
        row: int,
        width: Option<usize>,
        shaper: S,
    ) -> bool {
        &&& self.line@ == line_text(text, row)
        &&& byte_len(self.line@) <= usize::MAX
        &&& self.wrapped_lines@ == wrap_segments(
            shape_of(shaper, line_text(text, row), width),
            byte_len(line_text(text, row)) as usize,
        )
    }

    /// Byte length of this line.
    pub fn len(&self) -> (n: usize)
        requires
            byte_len(self.line@) <= usize::MAX,
        ensures
            n == byte_len(self.line@),
    {
        proof {
            lemma_encode_utf8_len(self.line@);
        }
        self.line.as_str().len()
    }

    /// Number of soft-wrapped segments of this line, the first
    /// included.
    pub fn lines_len(&self) -> (n: usize)
        ensures
            n == self.wrapped_lines@.len(),
    {
        self.wrapped_lines.len()
    }
}

/// Number of soft-wrapped segments over a run of line items, saturated
/// at the machine limit as the running total is.
pub open spec fn soft_sum(items: Seq<LineItem>) -> int
    decreases items.len(),
{
    if items.len() == 0 {
        0
    } else {
        let rest = soft_sum(items.skip(1));
        if items[0].wrapped_lines@.len() + rest > usize::MAX {
            usize::MAX as int
        } else {
            items[0].wrapped_lines@.len() + rest
        }
    }
}

pub proof fn lemma_soft_sum_bounds(items: Seq<LineItem>)
    ensures
        0 <= soft_sum(items) <= usize::MAX,
    decreases items.len(),
{
    if items.len() > 0 {
        lemma_soft_sum_bounds(items.skip(1));
    }
}

/// Adding one item in front adds its segment count, up to saturation.
pub proof fn lemma_soft_sum_concat(a: Seq<LineItem>, b: Seq<LineItem>)
    ensures
        soft_sum(a + b) == if soft_sum(a) + soft_sum(b) > usize::MAX {
            usize::MAX as int
        } else {
            soft_sum(a) + soft_sum(b)
        },
    decreases a.len(),
{
    lemma_soft_sum_bounds(a);
    lemma_soft_sum_bounds(b);
    if a.len() == 0 {
        assert(a + b =~= b);
    } else {
        assert((a + b).skip(1) =~= a.skip(1) + b);
        lemma_soft_sum_concat(a.skip(1), b);
        lemma_soft_sum_bounds(a.skip(1));
    }
}

/// The widest row seen so far: its index and its byte length.
#[derive(Debug, Clone, Copy, PartialEq, Eq, Structural)]
pub struct LongestRow {
    /// The 0-based row index.
    pub row: usize,
    /// The byte length of that row.
    pub len: usize,
}

impl Default for LongestRow {
    fn default() -> (r: Self)
        ensures
            r == (LongestRow { row: 0usize, len: 0usize }),
    {
        LongestRow { row: 0, len: 0 }
    }
}

/// Folds the rows `from..upto` of `text` over `base`, replacing it
/// whenever a row is strictly longer than the best seen.
pub open spec fn longest_scan(base: LongestRow, text: Seq<char>, from: int, upto: int) -> LongestRow
    decreases upto - from,
{
    if upto <= from {
        base
    } else {
        let prev = longest_scan(base, text, from, upto - 1);
        if byte_len(line_text(text, upto - 1)) > prev.len {
            LongestRow {
                row: (upto - 1) as usize,
                len: byte_len(line_text(text, upto - 1)) as usize,
            }
        } else {
            prev
        }
    }
}

/// The partition law of one wrapped line: valid break offsets cut the
/// line into at least one segment; the segments begin at zero, end at
/// the line's byte length, chain without gap or overlap, and lie on
/// character boundaries.
pub proof fn lemma_wrapped_lines_partition(line: Seq<char>, bs: Seq<usize>, total: usize)
    requires
        valid_wrap_boundaries(line, bs),
        total == byte_len(line),
    ensures
        ({
            let segs = wrap_segments(bs, total);
            &&& segs.len() == bs.len() + 1 >= 1
            &&& segs[0].start == 0
            &&& segs[segs.len() - 1].end == total
            &&& forall|i: int| 0 <= i < segs.len() ==> #[trigger] segs[i].start <= segs[i].end
            &&& forall|i: int|
                0 <= i < segs.len() - 1 ==> #[trigger] segs[i].end == segs[i + 1].start
            &&& forall|i: int|
                0 <= i < segs.len() ==> is_boundary(line, #[trigger] segs[i].start as int)
                    && is_boundary(line, segs[i].end as int)
        }),
{
    let segs = wrap_segments(bs, total);
    assert(line.take(0) =~= Seq::<char>::empty());
    assert(line.take(line.len() as int) =~= line);
    assert(is_boundary(line, 0));
    assert(is_boundary(line, byte_len(line)));
    assert forall|i: int| 0 <= i < segs.len() implies #[trigger] segs[i].start
        <= segs[i].end by {
        if 0 < i < bs.len() {
            assert(bs[i - 1] < bs[i]);
        }
    }
}

fn clone_line_item(item: &LineItem) -> (r: LineItem)
    ensures
        r.line@ == item.line@,
        r.wrapped_lines@ == item.wrapped_lines@,
{
    let line = item.line.clone();
    let mut segs: Vec<Selection> = Vec::new();
    let mut k: usize = 0;
    while k < item.wrapped_lines.len()
        invariant
            k <= item.wrapped_lines@.len(),
            segs@.len() == k,
            forall|j: int| 0 <= j < k ==> #[trigger] segs@[j] == item.wrapped_lines@[j],
        decreases item.wrapped_lines@.len() - k,
    {
        segs.push(item.wrapped_lines[k]);
        k = k + 1;
    }
    proof {
        assert(segs@ =~= item.wrapped_lines@);
    }
    LineItem { line, wrapped_lines: segs }
}

/// The longest-row cache after an edit, exactly as the engine keeps
/// it: dropped when the edit touches the cached row, then challenged
/// by every recomputed row.
pub open spec fn updated_longest(
    old_longest: LongestRow,
    s_old: Seq<char>,
    s_new: Seq<char>,
    start: int,
    end: int,
) -> LongestRow {
    let r0 = row_of_offset(s_old, start);
    let r1 = row_of_offset(s_old, end);
    let new_end = byte_len(s_new) - (byte_len(s_old) - end);
    let nr1 = row_of_offset(s_new, new_end);
    let base = if r0 <= old_longest.row as int && old_longest.row as int <= r1 {
        LongestRow { row: 0usize, len: 0usize }
    } else {
        old_longest
    };
    longest_scan(base, s_new, r0, nr1 + 1)
}

/// Keeps, for the current text and wrap width, every line's soft-wrap
/// segments, updated incrementally on each edit.
pub struct TextWrapper<S: LineShaper> {
    /// The text the cached lines below describe.
    pub text: TextBuffer,
    /// Total count of soft-wrapped segments over all lines.
    pub soft_lines: usize,
    /// The line-shaping service.
    pub shaper: S,
    /// Wrap width; `None` disables soft wrapping.
    pub wrap_width: Option<usize>,
    /// The widest known row, kept lazily.
    pub longest_row: LongestRow,
    /// One cached item per newline-delimited line of `text`.
    pub lines: Vec<LineItem>,
}

impl<S: LineShaper> TextWrapper<S> {
    /// The cache is consistent: one item per line of the text, each
    /// holding exactly what shaping its row yields, and the soft-line
    /// total matches.
    pub open spec fn wf(&self) -> bool {
        &&& self.lines@.len() == count_nl(self.text@) + 1
        &&& forall|r: int|
            0 <= r < self.lines@.len() ==> #[trigger] self.lines@[r].wf(
                self.text@,
                r,
                self.wrap_width,
                self.shaper,
            )
        &&& self.soft_lines as int == soft_sum(self.lines@)
    }

    /// A wrapper over the empty text: one line with one empty segment.
    pub fn new(shaper: S, wrap_width: Option<usize>) -> (r: Self)
        ensures
            r.wf(),
            r.text@ == Seq::<char>::empty(),
            r.wrap_width == wrap_width,
            r.shaper == shaper,
            r.longest_row == (LongestRow { row: 0usize, len: 0usize }),
    {
        let text = TextBuffer::new();
        let mut segs: Vec<Selection> = Vec::new();
        segs.push(Selection::new(0, 0));
        let mut lines: Vec<LineItem> = Vec::new();
        lines.push(LineItem { line: String::new(), wrapped_lines: segs });
        let result = TextWrapper {
            text,
            soft_lines: 1,
            shaper,
            wrap_width,
            longest_row: LongestRow { row: 0, len: 0 },
            lines,
        };
        proof {
            let s = Seq::<char>::empty();
            assert(count_nl(s) == 0);
            assert(line_text(s, 0) =~= s);
            let bs = shape_of(result.shaper, s, wrap_width);
            if wrap_width is Some {
                result.shaper.wrap_spec_valid(s, wrap_width->Some_0);
                if bs.len() > 0 {
                    assert(0 < bs[0] && (bs[0] as int) < byte_len(s));
                    assert(false);
                }
            }
            assert(bs =~= Seq::<usize>::empty());
            assert(result.lines@[0].wrapped_lines@ =~= wrap_segments(bs, 0usize));
            assert(result.lines@.skip(1) =~= Seq::<LineItem>::empty());
            assert(soft_sum(Seq::<LineItem>::empty()) == 0);
            assert(soft_sum(result.lines@) == 1);
        }
        result
    }

    /// Total number of soft-wrapped lines, the first segment of every
    /// line included.
    pub fn len(&self) -> (n: usize)
        ensures
            n == self.soft_lines,
    {
        self.soft_lines
    }

    /// The cached item of row `row`, if there is one.
    pub fn line(&self, row: usize) -> (r: Option<&LineItem>)
        ensures
            row < self.lines@.len() ==> r == Some(&self.lines@[row as int]),
            row >= self.lines@.len() ==> r is None,
    {
        if row < self.lines.len() {
            Some(&self.lines[row])
        } else {
            None
        }
    }

    /// What `update` needs of the cache: one item per line of the old
    /// text, and every row the edit does not touch still consistent.
    /// A well-formed cache satisfies this for any edit range.
    pub open spec fn can_update(&self, range: Selection) -> bool {
        &&& self.lines@.len() == count_nl(self.text@) + 1
        &&& forall|q: int|
            0 <= q < self.lines@.len() && !(row_of_offset(self.text@, range.start as int) <= q
                <= row_of_offset(self.text@, range.end as int)) ==> #[trigger] self.lines@[q].wf(
                self.text@,
                q,
                self.wrap_width,
                self.shaper,
            )
    }

    /// Re-wraps the rows an edit touched and splices them in.
    ///
    /// `changed_text` is the text after the edit, `range` the replaced
    /// byte range of the text before it, `new_text` the replacement.
    #[verifier::loop_isolation(false)]
    pub fn update(&mut self, changed_text: &TextBuffer, range: Selection, new_text: &str)
        requires
            old(self).can_update(range),
            range.start <= range.end,
            range.end as int <= byte_len(old(self).text@),
            is_boundary(old(self).text@, range.start as int),
            is_boundary(old(self).text@, range.end as int),
            changed_text@ == old(self).text@.take(
                char_of_byte(old(self).text@, range.start as int),
            ) + new_text@ + old(self).text@.skip(
                char_of_byte(old(self).text@, range.end as int),
            ),
        ensures
            final(self).wf(),
            final(self).text@ == changed_text@,
            final(self).wrap_width == old(self).wrap_width,
            final(self).shaper == old(self).shaper,
            final(self).longest_row == updated_longest(
                old(self).longest_row,
                old(self).text@,
                changed_text@,
                range.start as int,
                range.end as int,
            ),
    {
        let ghost s_old = self.text@;
        let ghost s_new = changed_text@;
        let ghost cs = char_of_byte(s_old, range.start as int);
        let ghost ce = char_of_byte(s_old, range.end as int);
        let ghost ce2 = cs + new_text@.len();

        proof {
            lemma_char_of_byte_floor(s_old, range.start as int);
            lemma_char_of_byte_floor(s_old, range.end as int);
            lemma_boundary_iff_floor_exact(s_old, range.start as int);
            lemma_boundary_iff_floor_exact(s_old, range.end as int);
            if cs > ce {
                lemma_byte_len_take_mono(s_old, ce, cs);
            }
            assert(s_new.take(cs) =~= s_old.take(cs));
            assert(s_new.take(ce2) =~= s_old.take(cs) + new_text@);
            assert(s_new.skip(ce2) =~= s_old.skip(ce));
            // byte lengths of the spliced parts
            lemma_byte_len_split(s_old, cs);
            lemma_byte_len_split(s_old, ce);
            lemma_byte_len_split(s_new, cs);
            lemma_byte_len_split(s_new, ce2);
            lemma_byte_len_concat(s_old.take(cs), new_text@);
            assert(byte_len(s_new.take(ce2)) == range.start + byte_len(new_text@));
            // start offset is a boundary of the new text as well
            lemma_char_of_byte_at_boundary(s_new, cs);
            lemma_char_of_byte_at_boundary(s_new, ce2);
            lemma_byte_len_bounds(new_text@);
        }

        // rows of the edit in the old text
        let p0 = self.text.offset_to_point(range.start);
        let start_row = p0.row;
        let p1 = self.text.offset_to_point(range.end);
        let end_row = p1.row;
        proof {
            assert(clip_left(s_old, range.start as int) == range.start as int);
            assert(clip_left(s_old, range.end as int) == range.end as int);
            lemma_count_nl_prefix(s_old, cs);
            lemma_count_nl_prefix(s_old, ce);
            lemma_count_nl_take_mono(s_old, cs, ce);
            assert(start_row == count_nl(s_old.take(cs)));
            assert(end_row == count_nl(s_old.take(ce)));
        }

        // rows of the new content in the new text
        let old_len = self.text.len();
        let new_len = changed_text.len();
        let tail_len = old_len - range.end;
        let new_end_offset = new_len - tail_len;
        let np1 = changed_text.offset_to_point(new_end_offset);
        let new_end_row = np1.row;
        let nl_new = changed_text.lines_len();
        let old_lines_len = self.lines.len();
        proof {
            assert(new_end_offset as int == byte_len(s_new.take(ce2)));
            assert(is_boundary(s_new, new_end_offset as int));
            lemma_boundary_iff_floor_exact(s_new, new_end_offset as int);
            assert(clip_left(s_new, new_end_offset as int) == new_end_offset as int);
            assert(char_of_byte(s_new, new_end_offset as int) == ce2);
            assert(new_end_row == count_nl(s_new.take(ce2)));
            lemma_count_nl_prefix(s_new, ce2);
            lemma_count_nl_take_mono(s_new, cs, ce2);
            lemma_count_nl_prefix(s_new, cs);
            assert(count_nl(s_new.take(cs)) == start_row);
            // counts after the shared suffix agree
            lemma_count_nl_split(s_old, ce);
            lemma_count_nl_split(s_new, ce2);
            assert(count_nl(s_new) - new_end_row == count_nl(s_old) - end_row);
        }

        // longest-row cache: invalidated when the edit touches it
        let invalidated = start_row <= self.longest_row.row && self.longest_row.row <= end_row;
        let cur0: LongestRow = if invalidated {
            LongestRow { row: 0, len: 0 }
        } else {
            self.longest_row
        };
        let ghost base = cur0;
        let mut cur = cur0;

        // untouched rows before the edit
        let mut out: Vec<LineItem> = Vec::new();
        let mut i: usize = 0;
        while i < start_row
            invariant
                i <= start_row,
                start_row < self.lines@.len(),
                out@.len() == i,
                forall|q: int|
                    0 <= q < i ==> #[trigger] out@[q].line@ == self.lines@[q].line@
                        && out@[q].wrapped_lines@ == self.lines@[q].wrapped_lines@,
            decreases start_row - i,
        {
            let item = clone_line_item(&self.lines[i]);
            out.push(item);
            i = i + 1;
        }

        // recomputed rows covering the new content
        let mut r = start_row;
        while r <= new_end_row
            invariant
                old(self).can_update(range),
                s_old == self.text@,
                s_new == changed_text@,
                self.wrap_width == old(self).wrap_width,
                self.shaper == old(self).shaper,
                self.lines@ == old(self).lines@,
                self.longest_row == old(self).longest_row,
                start_row <= r <= new_end_row + 1,
                new_end_row as int <= count_nl(s_new),
                out@.len() == r,
                forall|q: int|
                    0 <= q < start_row ==> #[trigger] out@[q].line@ == self.lines@[q].line@
                        && out@[q].wrapped_lines@ == self.lines@[q].wrapped_lines@,
                forall|q: int|
                    start_row <= q < r ==> #[trigger] out@[q].wf(
                        s_new,
                        q,
                        self.wrap_width,
                        self.shaper,
                    ),
                cur == longest_scan(base, s_new, start_row as int, r as int),
            decreases new_end_row + 1 - r,
        {
            let line = changed_text.slice_row(r);
            let line_len_b = changed_text.line_len(r);
            let bs: Vec<usize> = match self.wrap_width {
                None => Vec::new(),
                Some(w) => self.shaper.wrap_line(line.as_str(), w),
            };
            proof {
                assert(bs@ =~= shape_of(self.shaper, line_text(s_new, r as int), self.wrap_width));
            }
            let mut segs: Vec<Selection> = Vec::new();
            let mut prev: usize = 0;
            let mut k: usize = 0;
            while k < bs.len()
                invariant
                    k <= bs@.len(),
                    segs@.len() == k,
                    prev == if k == 0 {
                        0usize
                    } else {
                        bs@[k - 1]
                    },
                    forall|j: int|
                        0 <= j < k ==> #[trigger] segs@[j] == wrap_segments(bs@, line_len_b)[j],
                decreases bs@.len() - k,
            {
                let b = bs[k];
                segs.push(Selection::new(prev, b));
                prev = b;
                k = k + 1;
            }
            segs.push(Selection::new(prev, line_len_b));
            proof {
                assert(segs@ =~= wrap_segments(bs@, line_len_b));
            }
            if line_len_b > cur.len {
                cur = LongestRow { row: r, len: line_len_b };
            }
            let ghost pre_out = out@;
            out.push(LineItem { line, wrapped_lines: segs });
            proof {
                assert forall|q: int| 0 <= q < start_row implies #[trigger] out@[q].line@
                    == self.lines@[q].line@ && out@[q].wrapped_lines@
                    == self.lines@[q].wrapped_lines@ by {
                    assert(out@[q] == pre_out[q]);
                }
                assert forall|q: int| start_row <= q < r + 1 implies #[trigger] out@[q].wf(
                    s_new,
                    q,
                    self.wrap_width,
                    self.shaper,
                ) by {
                    if q < r {
                        assert(out@[q] == pre_out[q]);
                    } else {
                        assert(out@[q] == LineItem { line, wrapped_lines: segs });
                    }
                }
            }
            r = r + 1;
        }

        // untouched rows after the edit
        proof {
            assert(end_row as int <= count_nl(s_old));
            assert(end_row < self.lines@.len());
        }
        let mut j: usize = end_row + 1;
        let ghost shift = new_end_row as int - end_row as int;
        while j < self.lines.len()
            invariant
                old(self).can_update(range),
                s_old == self.text@,
                self.lines@ == old(self).lines@,
                end_row + 1 <= j <= self.lines@.len(),
                shift == new_end_row as int - end_row as int,
                out@.len() == j + shift,
                new_end_row as int + 1 <= out@.len(),
                forall|q: int|
                    0 <= q < start_row ==> #[trigger] out@[q].line@ == self.lines@[q].line@
                        && out@[q].wrapped_lines@ == self.lines@[q].wrapped_lines@,
                forall|q: int|
                    start_row <= q <= new_end_row ==> #[trigger] out@[q].wf(
                        s_new,
                        q,
                        self.wrap_width,
                        self.shaper,
                    ),
                forall|u: int|
                    #![trigger out@[u]]
                    new_end_row < u < out@.len() ==> out@[u].line@ == self.lines@[u - shift].line@
                        && out@[u].wrapped_lines@ == self.lines@[u - shift].wrapped_lines@,
            decreases self.lines@.len() - j,
        {
            let item = clone_line_item(&self.lines[j]);
            let ghost pre_out = out@;
            out.push(item);
            proof {
                assert(out@ == pre_out.push(item));
                assert forall|q: int| 0 <= q < start_row implies #[trigger] out@[q].line@
                    == self.lines@[q].line@ && out@[q].wrapped_lines@
                    == self.lines@[q].wrapped_lines@ by {
                    assert(out@[q] == pre_out[q]);
                }
                assert forall|q: int| start_row <= q <= new_end_row implies #[trigger] out@[q].wf(
                    s_new,
                    q,
                    self.wrap_width,
                    self.shaper,
                ) by {
                    assert(out@[q] == pre_out[q]);
                }
                assert forall|u: int|
                    new_end_row < u < out@.len() implies #[trigger] out@[u].line@ == self.lines@[u
                    - shift].line@ && out@[u].wrapped_lines@ == self.lines@[u
                    - shift].wrapped_lines@ by {
                    if u < pre_out.len() {
                        assert(out@[u] == pre_out[u]);
                    } else {
                        assert(u == pre_out.len());
                        assert(u - shift == j);
                        assert(out@[u] == item);
                    }
                }
            }
            j = j + 1;
        }

        let new_text_buf = changed_text.clone();
        self.text = new_text_buf;
        self.lines = out;
        self.longest_row = cur;

        // recompute the soft-line total
        let mut total: usize = 0;
        let mut q: usize = 0;
        while q < self.lines.len()
            invariant
                q <= self.lines@.len(),
                total as int == soft_sum(self.lines@.take(q as int)),
            decreases self.lines@.len() - q,
        {
            let c = self.lines[q].wrapped_lines.len();
            proof {
                let pre = self.lines@.take(q as int);
                let one = seq![self.lines@[q as int]];
                assert(self.lines@.take(q as int + 1) =~= pre + one);
                lemma_soft_sum_concat(pre, one);
                assert(one.skip(1) =~= Seq::<LineItem>::empty());
                assert(soft_sum(Seq::<LineItem>::empty()) == 0);
                assert(one[0] == self.lines@[q as int]);
                assert(soft_sum(one) == c);
            }
            total = if total <= usize::MAX - c {
                total + c
            } else {
                usize::MAX
            };
            q = q + 1;
        }
        self.soft_lines = total;

        // the spliced cache is exactly the full recomputation
        proof {
            assert(self.lines@.take(self.lines@.len() as int) =~= self.lines@);
            assert(self.lines@.len() == count_nl(s_new) + 1);
            assert forall|u: int| 0 <= u < self.lines@.len() implies #[trigger] self.lines@[u].wf(
                s_new,
                u,
                self.wrap_width,
                self.shaper,
            ) by {
                if u < start_row {
                    lemma_line_text_prefix_stable(s_old, s_new, cs, u);
                    assert(old(self).lines@[u].wf(s_old, u, self.wrap_width, self.shaper));
                } else if u > new_end_row {
                    let t = u - shift;
                    lemma_line_text_suffix_stable(s_old, s_new, ce, ce2, t - end_row);
                    assert(self.lines@[u].line@ == old(self).lines@[t].line@);
                    assert(old(self).lines@[t].wf(s_old, t, self.wrap_width, self.shaper));
                }
            }
        }
    }

    /// Recomputes the whole cache for `text`, as a full-range edit.
    pub fn update_all(&mut self, text: &TextBuffer)
        requires
            old(self).lines@.len() == count_nl(old(self).text@) + 1,
        ensures
            final(self).wf(),
            final(self).text@ == text@,
            final(self).wrap_width == old(self).wrap_width,
            final(self).shaper == old(self).shaper,
            final(self).longest_row == updated_longest(
                old(self).longest_row,
                old(self).text@,
                text@,
                0,
                byte_len(old(self).text@),
            ),
    {
        let old_len = self.text.len();
        let full = text.to_string();
        proof {
            let s_old = self.text@;
            assert(s_old.take(0) =~= Seq::<char>::empty());
            assert(is_boundary(s_old, 0));
            assert(s_old.take(s_old.len() as int) =~= s_old);
            assert(is_boundary(s_old, byte_len(s_old)));
            lemma_char_of_byte_floor(s_old, byte_len(s_old));
            lemma_boundary_iff_floor_exact(s_old, 0);
            lemma_boundary_iff_floor_exact(s_old, byte_len(s_old));
            lemma_char_of_byte_at_boundary(s_old, 0);
            lemma_char_of_byte_at_boundary(s_old, s_old.len() as int);
            assert(s_old.skip(s_old.len() as int) =~= Seq::<char>::empty());
            assert(text@ =~= s_old.take(0) + full@ + s_old.skip(s_old.len() as int));
        }
        self.update(text, Selection::new(0, old_len), full.as_str());
    }

    /// Replaces the text wholesale, recomputing every line.
    pub fn set_default_text(&mut self, text: &TextBuffer)
        requires
            old(self).wf(),
        ensures
            final(self).wf(),
            final(self).text@ == text@,
            final(self).wrap_width == old(self).wrap_width,
            final(self).shaper == old(self).shaper,
    {
        self.update_all(text);
    }

    /// Changes the wrap width; a changed width re-wraps everything.
    pub fn set_wrap_width(&mut self, wrap_width: Option<usize>)
        requires
            old(self).wf(),
        ensures
            final(self).wf(),
            final(self).text@ == old(self).text@,
            final(self).wrap_width == wrap_width,
            final(self).shaper == old(self).shaper,
    {
        let same = match (wrap_width, self.wrap_width) {
            (None, None) => true,
            (Some(a), Some(b)) => a == b,
            _ => false,
        };
        if same {
            return ;
        }
        self.wrap_width = wrap_width;
        let t = self.text.clone();
        self.update_all(&t);
    }

    /// Replaces the shaper; the whole text is re-shaped with it.
    pub fn set_shaper(&mut self, shaper: S)
        requires
            old(self).wf(),
        ensures
            final(self).wf(),
            final(self).text@ == old(self).text@,
            final(self).wrap_width == old(self).wrap_width,
            final(self).shaper == shaper,
    {
        self.shaper = shaper;
        let t = self.text.clone();
        self.update_all(&t);
    }
}

/// Break offsets of a fixed-pitch shaper that cuts after every
/// `w` characters, starting the scan at character `i`.
pub open spec fn mono_breaks(line: Seq<char>, w: int, i: int) -> Seq<usize>
    decreases line.len() - i,
{
    if w < 1 || i < 0 || i + w >= line.len() {
        Seq::<usize>::empty()
    } else {
        seq![byte_len(line.take(i + w)) as usize] + mono_breaks(line, w, i + w)
    }
}

proof fn lemma_mono_breaks_valid(line: Seq<char>, w: int, i: int)
    requires
        byte_len(line) <= usize::MAX,
        0 <= i <= line.len(),
    ensures
        ({
            let bs = mono_breaks(line, w, i);
            &&& forall|k: int|
                0 <= k < bs.len() ==> byte_len(line.take(i)) < #[trigger] bs[k] && (
                bs[k] as int) < byte_len(line) && is_boundary(line, bs[k] as int)
            &&& forall|k1: int, k2: int| 0 <= k1 < k2 < bs.len() ==> bs[k1] < bs[k2]
        }),
    decreases line.len() - i,
{
    if !(w < 1 || i < 0 || i + w >= line.len()) {
        assert(line.take(line.len() as int) =~= line);
        lemma_byte_len_take_mono(line, 0, i);
        lemma_byte_len_take_mono(line, i, i + w);
        lemma_byte_len_take_mono(line, i + w, line.len() as int);
        assert(is_boundary(line, byte_len(line.take(i + w))));
        lemma_mono_breaks_valid(line, w, i + w);
        let bs = mono_breaks(line, w, i);
        let rest = mono_breaks(line, w, i + w);
        assert forall|k: int| 0 <= k < bs.len() implies byte_len(line.take(i))
            < #[trigger] bs[k] && (bs[k] as int) < byte_len(line) && is_boundary(
            line,
            bs[k] as int,
        ) by {
            if k > 0 {
                assert(bs[k] == rest[k - 1]);
            }
        }
        assert forall|k1: int, k2: int| 0 <= k1 < k2 < bs.len() implies bs[k1] < bs[k2] by {
            assert(bs[k2] == rest[k2 - 1]);
            if k1 > 0 {
                assert(bs[k1] == rest[k1 - 1]);
            }
        }
    }
}

fn char_width(c: char) -> (w: usize)
    ensures
        w == crate::unicode::char_bytes(c),
{
    let u = c as u32;
    if u < 0x80 {
        1
    } else if u < 0x800 {
        2
    } else if u < 0x10000 {
        3
    } else {
        4
    }
}

/// A fixed-pitch reference shaper: it breaks a line after every
/// `width` characters, treating every character as one cell wide.
#[derive(Debug, Clone, Copy, PartialEq, Eq, Structural)]
pub struct MonoShaper {}

impl LineShaper for MonoShaper {
    open spec fn wrap_spec(&self, line: Seq<char>, width: usize) -> Seq<usize> {
        mono_breaks(line, width as int, 0)
    }

    proof fn wrap_spec_valid(&self, line: Seq<char>, width: usize) {
        lemma_mono_breaks_valid(line, width as int, 0);
        assert(line.take(0) =~= Seq::<char>::empty());
    }

    #[verifier::loop_isolation(false)]
    fn wrap_line(&self, line: &str, width: usize) -> (r: Vec<usize>) {
        let mut out: Vec<usize> = Vec::new();
        if width == 0 {
            proof {
                assert(out@ =~= mono_breaks(line@, width as int, 0));
            }
            return out;
        }
        proof {
            lemma_encode_utf8_len(line@);
        }
        let bytes = line.as_bytes();
        let total_bytes = bytes.len();
        let n = line.unicode_len();
        let mut i: usize = 0;
        let mut byte_pos: usize = 0;
        while width < n - i
            invariant
                width >= 1,
                i <= n,
                byte_pos == byte_len(line@.take(i as int)),
                out@ + mono_breaks(line@, width as int, i as int) =~= mono_breaks(
                    line@,
                    width as int,
                    0,
                ),
            decreases n - i,
        {
            let mut k: usize = 0;
            while k < width
                invariant
                    width < n - i,
                    k <= width,
                    byte_pos == byte_len(line@.take(i as int + k as int)),
                decreases width - k,
            {
                let c = line.get_char(i + k);
                let cw = char_width(c);
                proof {
                    crate::unicode::lemma_byte_len_take_succ(line@, i as int + k as int);
                    lemma_byte_len_take_mono(line@, i as int + k as int + 1, line@.len() as int);
                    assert(line@.take(line@.len() as int) =~= line@);
                }
                byte_pos = byte_pos + cw;
                k = k + 1;
            }
            let ghost prev = mono_breaks(line@, width as int, i as int);
            let ghost pre_out = out@;
            out.push(byte_pos);
            i = i + width;
            proof {
                assert(prev == seq![byte_pos] + mono_breaks(line@, width as int, i as int));
                assert(out@ + mono_breaks(line@, width as int, i as int) =~= pre_out + prev);
            }
        }
        proof {
            assert(mono_breaks(line@, width as int, i as int) =~= Seq::<usize>::empty());
            assert(out@ =~= out@ + Seq::<usize>::empty());
        }
        out
    }
}

/// Congruent caches count the same segments.
proof fn lemma_soft_sum_congruent(a: Seq<LineItem>, b: Seq<LineItem>)
    requires
        a.len() == b.len(),
        forall|i: int|
            0 <= i < a.len() ==> #[trigger] a[i].wrapped_lines@.len() == b[i].wrapped_lines@.len(),
    ensures
        soft_sum(a) == soft_sum(b),
    decreases a.len(),
{
    if a.len() > 0 {
        lemma_soft_sum_congruent(a.skip(1), b.skip(1));
    }
}

/// The incremental-wrap equivalence law: two consistent caches over
/// the same text, wrap width and shaper hold the same lines with the
/// same segments and the same soft-line total — so an incremental
/// `update` yields exactly what a full `update_all` of the resulting
/// text yields.
pub proof fn lemma_wrap_equivalence<S: LineShaper>(w1: &TextWrapper<S>, w2: &TextWrapper<S>)
    requires
        w1.wf(),
        w2.wf(),
        w1.text@ == w2.text@,
        w1.wrap_width == w2.wrap_width,
        w1.shaper == w2.shaper,
    ensures
        w1.lines@.len() == w2.lines@.len(),
        forall|r: int|
            0 <= r < w1.lines@.len() ==> #[trigger] w1.lines@[r].line@ == w2.lines@[r].line@
                && w1.lines@[r].wrapped_lines@ == w2.lines@[r].wrapped_lines@,
        w1.soft_lines == w2.soft_lines,
{
    assert forall|r: int| 0 <= r < w1.lines@.len() implies #[trigger] w1.lines@[r].line@
        == w2.lines@[r].line@ && w1.lines@[r].wrapped_lines@ == w2.lines@[r].wrapped_lines@ by {
        assert(w1.lines@[r].wf(w1.text@, r, w1.wrap_width, w1.shaper));
        assert(w2.lines@[r].wf(w2.text@, r, w2.wrap_width, w2.shaper));
    }
    assert forall|i: int| 0 <= i < w1.lines@.len() implies #[trigger] w1.lines@[i].wrapped_lines@.len()
        == w2.lines@[i].wrapped_lines@.len() by {
        assert(w1.lines@[i].wf(w1.text@, i, w1.wrap_width, w1.shaper));
        assert(w2.lines@[i].wf(w2.text@, i, w2.wrap_width, w2.shaper));
    }
    lemma_soft_sum_congruent(w1.lines@, w2.lines@);
}

/// The wrap invariant law: in a consistent cache every line's
/// segments partition the line — at least one segment, starting at
/// zero, ending at the line's byte length, chaining without gap or
/// overlap, all on character boundaries.
#[verifier::rlimit(100)]
pub proof fn lemma_wrapper_partition<S: LineShaper>(w: &TextWrapper<S>, r: int)
    requires
        w.wf(),
        0 <= r < w.lines@.len(),
    ensures
        ({
            let segs = w.lines@[r].wrapped_lines@;
            let total = byte_len(w.lines@[r].line@);
            &&& segs.len() >= 1
            &&& segs[0].start == 0
            &&& segs[segs.len() - 1].end == total
            &&& forall|i: int| 0 <= i < segs.len() ==> #[trigger] segs[i].start <= segs[i].end
            &&& forall|i: int|
                0 <= i < segs.len() - 1 ==> #[trigger] segs[i].end == segs[i + 1].start
            &&& forall|i: int|
                0 <= i < segs.len() ==> is_boundary(w.lines@[r].line@, #[trigger] segs[i].start as int)
                    && is_boundary(w.lines@[r].line@, segs[i].end as int)
            &&& forall|j: int| 0 <= j < w.lines@[r].line@.len() ==> w.lines@[r].line@[j] != '\n'
        }),
{
    assert(w.lines@[r].wf(w.text@, r, w.wrap_width, w.shaper));
    let line = line_text(w.text@, r);
    lemma_line_text_no_nl(w.text@, r);
    lemma_byte_len_bounds(line);
    let bs = shape_of(w.shaper, line, w.wrap_width);
    match w.wrap_width {
        Option::None => {
            assert(valid_wrap_boundaries(line, bs));
        },
        Option::Some(width) => {
            w.shaper.wrap_spec_valid(line, width);
        },
    }
    lemma_wrapped_lines_partition(line, bs, byte_len(line) as usize);
    assert(w.lines@[r].line@ == line);
    assert(w.lines@[r].wrapped_lines@ == wrap_segments(bs, byte_len(line) as usize));
    let segs = w.lines@[r].wrapped_lines@;
    let total = byte_len(w.lines@[r].line@);
    assert(segs.len() >= 1);
    assert(segs[0].start == 0);
    assert(segs[segs.len() - 1].end == total);
    assert(forall|i: int| 0 <= i < segs.len() ==> #[trigger] segs[i].start <= segs[i].end);
    assert(forall|i: int| 0 <= i < segs.len() - 1 ==> #[trigger] segs[i].end == segs[i + 1].start);
    assert(forall|i: int|
        0 <= i < segs.len() ==> is_boundary(w.lines@[r].line@, #[trigger] segs[i].start as int)
            && is_boundary(w.lines@[r].line@, segs[i].end as int));
}

} // verus!
