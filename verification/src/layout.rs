//! Geometry queries over one line's shaped soft-wrap segments.
//!
//! The text-measurement service hands each segment back as a list of
//! glyph stops: character-boundary byte indexes with their x
//! positions. The queries below map byte offsets to positions and
//! back without touching how the segments were shaped.

use vstd::prelude::*;

verus! {

/// One glyph stop of a shaped segment: a byte index within the
/// segment and the x position it is drawn at.
#[derive(Debug, Clone, Copy, PartialEq, Eq, Structural)]
pub struct GlyphStop {
    /// Byte offset within the segment, on a character boundary.
    pub index: usize,
    /// X position of that boundary.
    pub x: usize,
}

/// One soft-wrapped segment as shaped for display: its glyph stops in
/// order, beginning at the origin.
#[derive(Debug, Clone)]
pub struct ShapedLine {
    pub stops: Vec<GlyphStop>,
}

/// X position of the last stop at or before byte index `i`.
pub open spec fn x_floor(stops: Seq<GlyphStop>, i: int) -> int
    decreases stops.len(),
{
    if stops.len() == 0 {
        0
    } else if stops.len() == 1 || i < stops[1].index {
        stops[0].x as int
    } else {
        x_floor(stops.skip(1), i)
    }
}

/// Byte index of the last stop whose x position is at or before `x`.
pub open spec fn index_floor(stops: Seq<GlyphStop>, x: int) -> int
    decreases stops.len(),
{
    if stops.len() == 0 {
        0
    } else if stops.len() == 1 || x < stops[1].x {
        stops[0].index as int
    } else {
        index_floor(stops.skip(1), x)
    }
}

/// Byte index of the stop nearest to `x`, the earlier one on a tie.
pub open spec fn closest_index(stops: Seq<GlyphStop>, x: int) -> int
    decreases stops.len(),
{
    if stops.len() == 0 {
        0
    } else if stops.len() == 1 {
        stops[0].index as int
    } else if x >= stops[1].x {
        closest_index(stops.skip(1), x)
    } else if x - stops[0].x <= stops[1].x - x {
        stops[0].index as int
    } else {
        stops[1].index as int
    }
}

impl ShapedLine {
    /// Stops begin at the origin and advance strictly in byte index
    /// and monotonically in x.
    pub open spec fn wf(&self) -> bool {
        &&& self.stops@.len() >= 1
        &&& self.stops@[0] == (GlyphStop { index: 0usize, x: 0usize })
        &&& forall|i: int, j: int|
            0 <= i < j < self.stops@.len() ==> (#[trigger] self.stops@[i]).index
                < (#[trigger] self.stops@[j]).index && self.stops@[i].x <= self.stops@[j].x
    }

    /// Byte length of the segment's text.
    pub open spec fn spec_len(&self) -> int {
        self.stops@.last().index as int
    }

    /// Rendered width of the segment.
    pub open spec fn spec_width(&self) -> int {
        self.stops@.last().x as int
    }

    /// A segment holding only the origin stop: empty text, no width.
    pub fn empty() -> (r: Self)
        ensures
            r.wf(),
            r.spec_len() == 0,
            r.spec_width() == 0,
    {
        let mut stops: Vec<GlyphStop> = Vec::new();
        stops.push(GlyphStop { index: 0, x: 0 });
        ShapedLine { stops }
    }

    /// Byte length of the segment's text.
    pub fn len(&self) -> (n: usize)
        requires
            self.wf(),
        ensures
            n == self.spec_len(),
    {
        self.stops[self.stops.len() - 1].index
    }

    /// Rendered width of the segment.
    pub fn width(&self) -> (n: usize)
        requires
            self.wf(),
        ensures
            n == self.spec_width(),
    {
        self.stops[self.stops.len() - 1].x
    }

    /// X position of the boundary at or just before byte `i`.
    #[verifier::loop_isolation(false)]
    pub fn x_for_index(&self, i: usize) -> (x: usize)
        requires
            self.wf(),
        ensures
            x == x_floor(self.stops@, i as int),
    {
        let n = self.stops.len();
        proof {
            assert(self.stops@.skip(0) =~= self.stops@);
        }
        let mut k: usize = 0;
        while k + 1 < n && self.stops[k + 1].index <= i
            invariant
                k < n,
                x_floor(self.stops@, i as int) == x_floor(self.stops@.skip(k as int), i as int),
            decreases self.stops@.len() - k,
        {
            proof {
                assert(self.stops@.skip(k as int)[1] == self.stops@[k + 1]);
                assert(self.stops@.skip(k as int).skip(1) =~= self.stops@.skip(k as int + 1));
            }
            k = k + 1;
        }
        proof {
            assert(self.stops@.skip(k as int)[0] == self.stops@[k as int]);
            if k + 1 < self.stops@.len() {
                assert(self.stops@.skip(k as int)[1] == self.stops@[k + 1]);
            }
        }
        self.stops[k].x
    }

    /// Byte index of the boundary nearest to `x`, the earlier one on
    /// a tie.
    #[verifier::loop_isolation(false)]
    pub fn closest_index_for_x(&self, x: usize) -> (i: usize)
        requires
            self.wf(),
        ensures
            i == closest_index(self.stops@, x as int),
    {
        let n = self.stops.len();
        proof {
            assert(self.stops@.skip(0) =~= self.stops@);
        }
        let mut k: usize = 0;
        while k + 1 < n && self.stops[k + 1].x <= x
            invariant
                k < n,
                self.stops@[k as int].x <= x,
                closest_index(self.stops@, x as int) == closest_index(
                    self.stops@.skip(k as int),
                    x as int,
                ),
            decreases self.stops@.len() - k,
        {
            proof {
                assert(self.stops@.skip(k as int)[1] == self.stops@[k + 1]);
                assert(self.stops@.skip(k as int).skip(1) =~= self.stops@.skip(k as int + 1));
            }
            k = k + 1;
        }
        proof {
            assert(self.stops@.skip(k as int)[0] == self.stops@[k as int]);
            if k + 1 < self.stops@.len() {
                assert(self.stops@.skip(k as int)[1] == self.stops@[k + 1]);
            }
        }
        if k + 1 < n {
            let lo = self.stops[k].x;
            let hi = self.stops[k + 1].x;
            if x - lo <= hi - x {
                self.stops[k].index
            } else {
                self.stops[k + 1].index
            }
        } else {
            self.stops[k].index
        }
    }

    /// Byte index of the boundary at or just before `x`, or `None`
    /// when `x` lies beyond the segment's width.
    #[verifier::loop_isolation(false)]
    #[verifier::rlimit(50)]
    pub fn index_for_x(&self, x: usize) -> (r: Option<usize>)
        requires
            self.wf(),
        ensures
            x as int > self.spec_width() ==> r is None,
            x as int <= self.spec_width() ==> r == Some(
                index_floor(self.stops@, x as int) as usize,
            ),
    {
        let w = self.width();
        if x > w {
            return None;
        }
        let n = self.stops.len();
        proof {
            assert(self.stops@.skip(0) =~= self.stops@);
        }
        let mut k: usize = 0;
        while k + 1 < n && self.stops[k + 1].x <= x
            invariant
                k < n,
                index_floor(self.stops@, x as int) == index_floor(
                    self.stops@.skip(k as int),
                    x as int,
                ),
            decreases self.stops@.len() - k,
        {
            proof {
                assert(self.stops@.skip(k as int)[1] == self.stops@[k + 1]);
                assert(self.stops@.skip(k as int).skip(1) =~= self.stops@.skip(k as int + 1));
            }
            k = k + 1;
        }
        proof {
            assert(self.stops@.skip(k as int)[0] == self.stops@[k as int]);
            if k + 1 < self.stops@.len() {
                assert(self.stops@.skip(k as int)[1] == self.stops@[k + 1]);
            }
            lemma_index_floor_in_range(self.stops@, x as int);
        }
        Some(self.stops[k].index)
    }
}

/// Total byte length over a run of segments.
pub open spec fn len_sum(segs: Seq<ShapedLine>) -> int
    decreases segs.len(),
{
    if segs.len() == 0 {
        0
    } else {
        segs[0].spec_len() + len_sum(segs.skip(1))
    }
}

/// Width of the widest segment.
pub open spec fn max_width(segs: Seq<ShapedLine>) -> int
    decreases segs.len(),
{
    if segs.len() == 0 {
        0
    } else {
        let rest = max_width(segs.skip(1));
        if segs[0].spec_width() > rest {
            segs[0].spec_width()
        } else {
            rest
        }
    }
}

/// Every segment of the run is well-formed.
pub open spec fn segs_wf(segs: Seq<ShapedLine>) -> bool {
    forall|i: int| 0 <= i < segs.len() ==> (#[trigger] segs[i]).wf()
}

/// The position query: walks the segments from the top, peeling one
/// line height per row, until the row whose byte span covers the
/// offset (span ends inclusive, so a shared boundary belongs to the
/// earlier row).
pub open spec fn position_for_index_spec(segs: Seq<ShapedLine>, offset: int, lh: int) -> Option<
    (int, int),
>
    decreases segs.len(),
{
    if segs.len() == 0 {
        None
    } else if offset <= segs[0].spec_len() {
        Some((x_floor(segs[0].stops@, offset), 0))
    } else {
        match position_for_index_spec(segs.skip(1), offset - segs[0].spec_len(), lh) {
            None => None,
            Some(p) => Some((p.0, p.1 + lh)),
        }
    }
}

/// The click query: finds the row whose vertical band holds `y`, then
/// the nearest boundary to `x` in that row.
pub open spec fn closest_index_for_position_spec(
    segs: Seq<ShapedLine>,
    x: int,
    y: int,
    lh: int,
) -> Option<int>
    decreases segs.len(),
{
    if segs.len() == 0 {
        None
    } else if y < lh {
        Some(closest_index(segs[0].stops@, x))
    } else {
        match closest_index_for_position_spec(segs.skip(1), x, y - lh, lh) {
            None => None,
            Some(i) => Some(segs[0].spec_len() + i),
        }
    }
}

/// As the click query, but `None` when `x` lies beyond the row's
/// width.
pub open spec fn index_for_position_spec(segs: Seq<ShapedLine>, x: int, y: int, lh: int) -> Option<
    int,
>
    decreases segs.len(),
{
    if segs.len() == 0 {
        None
    } else if y < lh {
        if x > segs[0].spec_width() {
            None
        } else {
            Some(index_floor(segs[0].stops@, x))
        }
    } else {
        match index_for_position_spec(segs.skip(1), x, y - lh, lh) {
            None => None,
            Some(i) => Some(segs[0].spec_len() + i),
        }
    }
}

/// One logical line's shaped soft-wrap segments, with the totals the
/// rendering layer sizes itself by.
pub struct LineLayout {
    /// Total byte length over all segments.
    pub len: usize,
    /// The soft-wrapped segments of this line, the first included.
    pub wrapped_lines: Vec<ShapedLine>,
    /// Width of the widest segment.
    pub longest_width: usize,
}

impl LineLayout {
    /// The totals match the segments and the segments are shaped
    /// sanely.
    pub open spec fn wf(&self) -> bool {
        &&& segs_wf(self.wrapped_lines@)
        &&& self.len == len_sum(self.wrapped_lines@)
        &&& self.longest_width == max_width(self.wrapped_lines@)
    }

    /// An empty layout.
    pub fn new() -> (r: Self)
        ensures
            r.wf(),
            r.wrapped_lines@.len() == 0,
            r.len == 0,
    {
        LineLayout { len: 0, longest_width: 0, wrapped_lines: Vec::new() }
    }

    /// The layout with the given segments, builder style.
    pub fn lines(self, wrapped_lines: Vec<ShapedLine>) -> (r: Self)
        requires
            segs_wf(wrapped_lines@),
            len_sum(wrapped_lines@) <= usize::MAX,
            max_width(wrapped_lines@) <= usize::MAX,
        ensures
            r.wf(),
            r.wrapped_lines@ == wrapped_lines@,
    {
        let mut this = self;
        this.set_wrapped_lines(wrapped_lines);
        this
    }

    /// Replaces the segments and recomputes both totals.
    #[verifier::loop_isolation(false)]
    pub fn set_wrapped_lines(&mut self, wrapped_lines: Vec<ShapedLine>)
        requires
            segs_wf(wrapped_lines@),
            len_sum(wrapped_lines@) <= usize::MAX,
            max_width(wrapped_lines@) <= usize::MAX,
        ensures
            final(self).wf(),
            final(self).wrapped_lines@ == wrapped_lines@,
    {
        let n = wrapped_lines.len();
        proof {
            assert(wrapped_lines@.skip(0) =~= wrapped_lines@);
            assert(wrapped_lines@.take(0) =~= Seq::<ShapedLine>::empty());
            assert(max_width(Seq::<ShapedLine>::empty()) == 0);
            lemma_max_width_nonneg(wrapped_lines@);
        }
        let mut total: usize = 0;
        let mut widest: usize = 0;
        let mut i: usize = 0;
        while i < n
            invariant
                segs_wf(wrapped_lines@),
                n == wrapped_lines@.len(),
                i <= n,
                len_sum(wrapped_lines@) <= usize::MAX,
                max_width(wrapped_lines@) <= usize::MAX,
                total + len_sum(wrapped_lines@.skip(i as int)) == len_sum(wrapped_lines@),
                widest == max_width(wrapped_lines@.take(i as int)),
                max_width(wrapped_lines@) == if widest >= max_width(
                    wrapped_lines@.skip(i as int),
                ) {
                    widest as int
                } else {
                    max_width(wrapped_lines@.skip(i as int))
                },
            decreases n - i,
        {
            proof {
                lemma_len_sum_nonneg(wrapped_lines@.skip(i as int).skip(1));
                lemma_max_width_nonneg(wrapped_lines@.skip(i as int).skip(1));
                assert(wrapped_lines@.skip(i as int)[0] == wrapped_lines@[i as int]);
                assert(wrapped_lines@.skip(i as int).skip(1) =~= wrapped_lines@.skip(i as int + 1));
                assert(wrapped_lines@.take(i as int + 1) =~= wrapped_lines@.take(i as int).push(
                    wrapped_lines@[i as int],
                ));
                lemma_max_width_push(wrapped_lines@.take(i as int), wrapped_lines@[i as int]);
            }
            let seg_len = wrapped_lines[i].len();
            let seg_width = wrapped_lines[i].width();
            total = total + seg_len;
            if seg_width > widest {
                widest = seg_width;
            }
            i = i + 1;
        }
        proof {
            assert(wrapped_lines@.skip(n as int) =~= Seq::<ShapedLine>::empty());
            assert(wrapped_lines@.take(n as int) =~= wrapped_lines@);
        }
        self.len = total;
        self.longest_width = widest;
        self.wrapped_lines = wrapped_lines;
    }

    /// Total byte length of this line.
    pub fn len(&self) -> (n: usize)
        ensures
            n == self.len,
    {
        self.len
    }

    /// Position of a byte offset of the line, relative to its
    /// top-left corner, or `None` past the line's end.
    #[verifier::loop_isolation(false)]
    pub fn position_for_index(&self, offset: usize, line_height: usize) -> (r: Option<
        (usize, usize),
    >)
        requires
            self.wf(),
            self.wrapped_lines@.len() * line_height <= usize::MAX,
        ensures
            r is None ==> position_for_index_spec(self.wrapped_lines@, offset as int,
                line_height as int) is None,
            r matches Some(p) ==> position_for_index_spec(
                self.wrapped_lines@,
                offset as int,
                line_height as int,
            ) == Some((p.0 as int, p.1 as int)),
    {
        let segs = &self.wrapped_lines;
        let n = segs.len();
        let ghost lh = line_height as int;
        proof {
            assert(segs@.skip(0) =~= segs@);
        }
        let mut row: usize = 0;
        let mut rem: usize = offset;
        while row < n
            invariant
                self.wf(),
                segs == &self.wrapped_lines,
                n == segs@.len(),
                row <= n,
                n * line_height <= usize::MAX,
                row > 0 ==> rem as int > 0,
                ({
                    let tail = position_for_index_spec(segs@.skip(row as int), rem as int, lh);
                    let whole = position_for_index_spec(segs@, offset as int, lh);
                    &&& (whole is None) == (tail is None)
                    &&& tail matches Some(p) ==> whole == Some(
                        (p.0, p.1 + row as int * lh),
                    )
                }),
            decreases n - row,
        {
            proof {
                assert(segs@.skip(row as int)[0] == segs@[row as int]);
                assert(segs@.skip(row as int).skip(1) =~= segs@.skip(row as int + 1));
                vstd::arithmetic::mul::lemma_mul_inequality(
                    row as int + 1,
                    n as int,
                    line_height as int,
                );
                vstd::arithmetic::mul::lemma_mul_inequality(
                    row as int,
                    n as int,
                    line_height as int,
                );
                vstd::arithmetic::mul::lemma_mul_is_distributive_add_other_way(
                    line_height as int,
                    row as int,
                    1,
                );
                vstd::arithmetic::mul::lemma_mul_basics(line_height as int);
            }
            let seg = &self.wrapped_lines[row];
            let seg_len = seg.len();
            if rem <= seg_len {
                let x = seg.x_for_index(rem);
                return Some((x, row * line_height));
            }
            rem = rem - seg_len;
            row = row + 1;
        }
        proof {
            assert(segs@.skip(n as int) =~= Seq::<ShapedLine>::empty());
        }
        None
    }

    /// Nearest boundary of the row whose vertical band holds `y`, or
    /// `None` below every row.
    #[verifier::loop_isolation(false)]
    pub fn closest_index_for_position(&self, x: usize, y: usize, line_height: usize) -> (r: Option<
        usize,
    >)
        requires
            self.wf(),
            len_sum(self.wrapped_lines@) <= usize::MAX,
        ensures
            r is None ==> closest_index_for_position_spec(self.wrapped_lines@, x as int, y as int,
                line_height as int) is None,
            r matches Some(i) ==> closest_index_for_position_spec(
                self.wrapped_lines@,
                x as int,
                y as int,
                line_height as int,
            ) == Some(i as int),
    {
        let segs = &self.wrapped_lines;
        let n = segs.len();
        let ghost lh = line_height as int;
        proof {
            assert(segs@.skip(0) =~= segs@);
        }
        let mut row: usize = 0;
        let mut rem_y: usize = y;
        let mut acc: usize = 0;
        while row < n
            invariant
                self.wf(),
                segs == &self.wrapped_lines,
                n == segs@.len(),
                row <= n,
                acc + len_sum(segs@.skip(row as int)) <= usize::MAX,
                acc >= 0,
                ({
                    let tail = closest_index_for_position_spec(
                        segs@.skip(row as int),
                        x as int,
                        rem_y as int,
                        lh,
                    );
                    let whole = closest_index_for_position_spec(segs@, x as int, y as int, lh);
                    &&& (whole is None) == (tail is None)
                    &&& tail matches Some(i) ==> whole == Some(acc as int + i)
                }),
            decreases n - row,
        {
            proof {
                assert(segs@.skip(row as int)[0] == segs@[row as int]);
                assert(segs@.skip(row as int).skip(1) =~= segs@.skip(row as int + 1));
                lemma_len_sum_nonneg(segs@.skip(row as int + 1));
                lemma_closest_in_range(segs@[row as int].stops@, x as int);
            }
            let seg = &self.wrapped_lines[row];
            if rem_y < line_height {
                let i = seg.closest_index_for_x(x);
                return Some(acc + i);
            }
            rem_y = rem_y - line_height;
            acc = acc + seg.len();
            row = row + 1;
        }
        proof {
            assert(segs@.skip(n as int) =~= Seq::<ShapedLine>::empty());
        }
        None
    }

    /// The floor boundary of the row whose vertical band holds `y`,
    /// or `None` when `x` overshoots that row or `y` every row.
    #[verifier::loop_isolation(false)]
    pub fn index_for_position(&self, x: usize, y: usize, line_height: usize) -> (r: Option<usize>)
        requires
            self.wf(),
            len_sum(self.wrapped_lines@) <= usize::MAX,
        ensures
            r is None ==> index_for_position_spec(self.wrapped_lines@, x as int, y as int,
                line_height as int) is None,
            r matches Some(i) ==> index_for_position_spec(
                self.wrapped_lines@,
                x as int,
                y as int,
                line_height as int,
            ) == Some(i as int),
    {
        let segs = &self.wrapped_lines;
        let n = segs.len();
        let ghost lh = line_height as int;
        proof {
            assert(segs@.skip(0) =~= segs@);
        }
        let mut row: usize = 0;
        let mut rem_y: usize = y;
        let mut acc: usize = 0;
        while row < n
            invariant
                self.wf(),
                segs == &self.wrapped_lines,
                n == segs@.len(),
                row <= n,
                acc + len_sum(segs@.skip(row as int)) <= usize::MAX,
                ({
                    let tail = index_for_position_spec(
                        segs@.skip(row as int),
                        x as int,
                        rem_y as int,
                        lh,
                    );
                    let whole = index_for_position_spec(segs@, x as int, y as int, lh);
                    &&& (whole is None) == (tail is None)
                    &&& tail matches Some(i) ==> whole == Some(acc as int + i)
                }),
            decreases n - row,
        {
            proof {
                assert(segs@.skip(row as int)[0] == segs@[row as int]);
                assert(segs@.skip(row as int).skip(1) =~= segs@.skip(row as int + 1));
                lemma_len_sum_nonneg(segs@.skip(row as int + 1));
                lemma_index_floor_in_range(segs@[row as int].stops@, x as int);
            }
            let seg = &self.wrapped_lines[row];
            if rem_y < line_height {
                let w = seg.width();
                if x > w {
                    return None;
                }
                match seg.index_for_x(x) {
                    Some(i) => {
                        return Some(acc + i);
                    },
                    None => {
                        return None;
                    },
                }
            }
            rem_y = rem_y - line_height;
            acc = acc + seg.len();
            row = row + 1;
        }
        proof {
            assert(segs@.skip(n as int) =~= Seq::<ShapedLine>::empty());
        }
        None
    }

    /// Overall size of the line: the widest segment by the stacked
    /// row heights.
    pub fn size(&self, line_height: usize) -> (r: (usize, usize))
        requires
            self.wf(),
            self.wrapped_lines@.len() * line_height <= usize::MAX,
        ensures
            r.0 == self.longest_width,
            r.1 == self.wrapped_lines@.len() * line_height,
    {
        (self.longest_width, self.wrapped_lines.len() * line_height)
    }
}

proof fn lemma_len_sum_nonneg(segs: Seq<ShapedLine>)
    requires
        segs_wf(segs),
    ensures
        len_sum(segs) >= 0,
    decreases segs.len(),
{
    if segs.len() > 0 {
        assert(segs[0].wf());
        assert forall|i: int| 0 <= i < segs.skip(1).len() implies (#[trigger] segs.skip(
            1,
        )[i]).wf() by {
            assert(segs.skip(1)[i] == segs[i + 1]);
        }
        lemma_len_sum_nonneg(segs.skip(1));
    }
}

proof fn lemma_max_width_nonneg(segs: Seq<ShapedLine>)
    ensures
        max_width(segs) >= 0,
    decreases segs.len(),
{
    if segs.len() > 0 {
        lemma_max_width_nonneg(segs.skip(1));
    }
}

/// Appending a segment takes the running maximum with its width.
proof fn lemma_max_width_push(segs: Seq<ShapedLine>, seg: ShapedLine)
    ensures
        max_width(segs.push(seg)) == if seg.spec_width() > max_width(segs) {
            seg.spec_width()
        } else {
            max_width(segs)
        },
    decreases segs.len(),
{
    if segs.len() == 0 {
        assert(segs.push(seg).skip(1) =~= Seq::<ShapedLine>::empty());
        assert(max_width(Seq::<ShapedLine>::empty()) == 0);
        assert(segs.push(seg)[0] == seg);
    } else {
        assert(segs.push(seg).skip(1) =~= segs.skip(1).push(seg));
        assert(segs.push(seg)[0] == segs[0]);
        lemma_max_width_push(segs.skip(1), seg);
        lemma_max_width_nonneg(segs.skip(1));
    }
}

/// The nearest boundary lies within the segment's byte span.
proof fn lemma_closest_in_range(stops: Seq<GlyphStop>, x: int)
    requires
        stops.len() >= 1,
        forall|i: int, j: int|
            0 <= i < j < stops.len() ==> (#[trigger] stops[i]).index < (#[trigger] stops[j]).index,
    ensures
        0 <= closest_index(stops, x) <= stops.last().index,
    decreases stops.len(),
{
    if stops.len() > 1 {
        assert forall|i: int, j: int|
            0 <= i < j < stops.skip(1).len() implies (#[trigger] stops.skip(1)[i]).index
            < (#[trigger] stops.skip(1)[j]).index by {
            assert(stops.skip(1)[i] == stops[i + 1]);
            assert(stops.skip(1)[j] == stops[j + 1]);
        }
        lemma_closest_in_range(stops.skip(1), x);
        assert(stops.skip(1).last() == stops.last());
        assert(stops.skip(1)[0] == stops[1]);
    }
}

/// The floor boundary lies within the segment's byte span.
proof fn lemma_index_floor_in_range(stops: Seq<GlyphStop>, x: int)
    requires
        stops.len() >= 1,
        forall|i: int, j: int|
            0 <= i < j < stops.len() ==> (#[trigger] stops[i]).index < (#[trigger] stops[j]).index,
    ensures
        0 <= index_floor(stops, x) <= stops.last().index,
    decreases stops.len(),
{
    if stops.len() > 1 {
        assert forall|i: int, j: int|
            0 <= i < j < stops.skip(1).len() implies (#[trigger] stops.skip(1)[i]).index
            < (#[trigger] stops.skip(1)[j]).index by {
            assert(stops.skip(1)[i] == stops[i + 1]);
            assert(stops.skip(1)[j] == stops[j + 1]);
        }
        lemma_index_floor_in_range(stops.skip(1), x);
        assert(stops.skip(1).last() == stops.last());
    }
}

} // verus!
