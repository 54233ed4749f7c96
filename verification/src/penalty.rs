//! The penalty scores that drive mask selection: runs of equal modules,
//! uniform blocks, patterns that resemble a finder, the dark-to-light
//! balance, and for Micro symbols the light modules along two sides.

use vstd::prelude::*;
use crate::canvas::Canvas;
use crate::module::Module;
use crate::patterns::lemma_row_major;
use crate::types::Version;

verus! {

broadcast use crate::canvas::lemma_grid_len, crate::canvas::lemma_wf_dimensions;

/// Line `i` of the grid: row `i` when `horizontal`, else column `i`.
pub open spec fn line_of(g: Seq<Module>, w: int, i: int, horizontal: bool) -> Seq<Module> {
    Seq::new(w as nat, |j: int| if horizontal {
        g[i * w + j]
    } else {
        g[j * w + i]
    })
}

/// The length of the run of equal modules at the head of the line.
pub open spec fn leading_run(s: Seq<Module>) -> int
    decreases s.len(),
{
    if s.len() == 0 {
        0
    } else if s.len() == 1 {
        1
    } else if s[1] == s[0] {
        1 + leading_run(s.drop_first())
    } else {
        1
    }
}

/// The head run is at least one module and at most the whole line.
pub proof fn lemma_leading_run_bounds(s: Seq<Module>)
    requires
        s.len() > 0,
    ensures
        1 <= leading_run(s) <= s.len(),
    decreases s.len(),
{
    if s.len() > 1 && s[1] == s[0] {
        lemma_leading_run_bounds(s.drop_first());
    }
}

/// A head segment of `m` equal modules bounded by a different module (or
/// the end of the line) is exactly the head run.
pub proof fn lemma_leading_run_exact(s: Seq<Module>, m: int)
    requires
        1 <= m <= s.len(),
        forall|k: int| 0 <= k < m ==> #[trigger] s[k] == s[0],
        m < s.len() ==> s[m] != s[0],
    ensures
        leading_run(s) == m,
    decreases m,
{
    if m == 1 {
        if s.len() > 1 {
            assert(s[1] != s[0]);
        }
    } else {
        assert(s[1] == s[0]);
        let t = s.drop_first();
        assert forall|k: int| 0 <= k < m - 1 implies #[trigger] t[k] == t[0] by {
            assert(t[k] == s[k + 1]);
        }
        assert(m - 1 < t.len() ==> t[m - 1] != t[0]);
        lemma_leading_run_exact(t, m - 1);
    }
}

/// The adjacency score of one line: every maximal run of `L >= 5` equal
/// modules contributes `L - 2` points.
pub open spec fn adjacent_score(s: Seq<Module>) -> int
    decreases s.len(),
    via adjacent_score_decreases
{
    if s.len() == 0 {
        0
    } else {
        let l = leading_run(s);
        (if l >= 5 {
            l - 2
        } else {
            0
        }) + adjacent_score(s.skip(l))
    }
}

#[via_fn]
proof fn adjacent_score_decreases(s: Seq<Module>) {
    if s.len() > 0 {
        lemma_leading_run_bounds(s);
    }
}

/// A line's adjacency score never exceeds its length.
pub proof fn lemma_adjacent_score_bounds(s: Seq<Module>)
    ensures
        0 <= adjacent_score(s) <= s.len(),
    decreases s.len(),
{
    if s.len() > 0 {
        lemma_leading_run_bounds(s);
        lemma_adjacent_score_bounds(s.skip(leading_run(s)));
    }
}

/// The adjacency scores of the first `n` lines of the grid.
pub open spec fn adjacent_lines_score(g: Seq<Module>, w: int, horizontal: bool, n: int) -> int
    decreases n,
{
    if n <= 0 {
        0
    } else {
        adjacent_lines_score(g, w, horizontal, n - 1) + adjacent_score(line_of(g, w, n - 1,
            horizontal))
    }
}

/// The scores of several lines stay within the grid's area.
proof fn lemma_adjacent_lines_bounds(g: Seq<Module>, w: int, horizontal: bool, n: int)
    requires
        0 < w,
        0 <= n,
    ensures
        0 <= adjacent_lines_score(g, w, horizontal, n) <= n * w,
    decreases n,
{
    if n > 0 {
        lemma_adjacent_lines_bounds(g, w, horizontal, n - 1);
        lemma_adjacent_score_bounds(line_of(g, w, n - 1, horizontal));
        assert((n - 1) * w + w == n * w) by (nonlinear_arith);
    }
}

impl Canvas {
    /// Computes the penalty for runs of equal modules along every row
    /// (or, with `is_horizontal` false, every column): each maximal run
    /// of five or more equal modules scores its length less two. Runs
    /// compare whole modules, so the masked mark takes part.
    pub fn compute_adjacent_penalty_score(&self, is_horizontal: bool) -> (r: u16)
        requires
            self.wf(),
        ensures
            r == adjacent_lines_score(self.grid(), self.spec_width(), is_horizontal,
                self.spec_width()),
    {
        let ghost g = self.grid();
        let ghost w_int = self.spec_width();
        let w = self.width();
        let mut total: u16 = 0;
        let mut i: i16 = 0;
        while i < w
            invariant
                self.wf(),
                w == w_int,
                w_int == self.spec_width(),
                g == self.grid(),
                g.len() == w_int * w_int,
                0 <= i <= w,
                total == adjacent_lines_score(g, w_int, is_horizontal, i as int),
                total <= i * w,
            decreases w - i,
        {
            proof {
                lemma_adjacent_lines_bounds(g, w_int, is_horizontal, i as int);
            }
            let ghost line = line_of(g, w_int, i as int, is_horizontal);
            let mut last = if is_horizontal {
                self.get(0, i)
            } else {
                self.get(i, 0)
            };
            proof {
                lemma_row_major(i as int, 0, w_int);
                lemma_row_major(0, i as int, w_int);
                assert(0 <= (i as int) * w_int && (i as int) * w_int < w_int * w_int)
                    by (nonlinear_arith)
                    requires 0 <= i < w_int, 0 < w_int;
                assert(last == line[0]);
            }
            proof {
                assert(line.skip(0) =~= line);
            }
            let mut len: u16 = 1;
            let mut row_total: u16 = 0;
            let mut j: i16 = 1;
            while j < w
                invariant
                    self.wf(),
                    w == w_int,
                    w_int == self.spec_width(),
                    g == self.grid(),
                    g.len() == w_int * w_int,
                    0 <= i < w,
                    line == line_of(g, w_int, i as int, is_horizontal),
                    1 <= j <= w,
                    1 <= len <= j,
                    last == line[j - len],
                    forall|k: int| j - len <= k < j ==> #[trigger] line[k] == line[j - len],
                    j - len > 0 ==> line[j - len - 1] != line[j - len],
                    row_total + adjacent_score(line.skip(j - len)) == adjacent_score(line),
                    row_total <= j - len,
                decreases w - j,
            {
                let cur = if is_horizontal {
                    self.get(j, i)
                } else {
                    self.get(i, j)
                };
                proof {
                    lemma_row_major(i as int, j as int, w_int);
                    lemma_row_major(j as int, i as int, w_int);
                    assert(0 <= (i as int) * w_int + j && (i as int) * w_int + j < w_int
                        * w_int) by (nonlinear_arith)
                        requires 0 <= i < w_int, 0 <= j < w_int, 0 < w_int;
                    assert(0 <= (j as int) * w_int + i && (j as int) * w_int + i < w_int
                        * w_int) by (nonlinear_arith)
                        requires 0 <= i < w_int, 0 <= j < w_int, 0 < w_int;
                    assert(cur == line[j as int]);
                }
                if cur == last {
                    len = len + 1;
                } else {
                    proof {
                        let rs = j - len;
                        let tail = line.skip(rs as int);
                        assert forall|k: int| 0 <= k < len implies #[trigger] tail[k] == tail[0] by {
                            assert(tail[k] == line[rs + k]);
                        }
                        assert(tail[len as int] == line[j as int]);
                        lemma_leading_run_exact(tail, len as int);
                        assert(tail.skip(len as int) =~= line.skip(j as int));
                        lemma_adjacent_score_bounds(tail);
                        lemma_adjacent_score_bounds(line.skip(j as int));
                        lemma_adjacent_score_bounds(line);
                    }
                    if len >= 5 {
                        row_total = row_total + (len - 2);
                    }
                    last = cur;
                    len = 1;
                }
                j = j + 1;
            }
            proof {
                let rs = j - len;
                let tail = line.skip(rs as int);
                assert forall|k: int| 0 <= k < len implies #[trigger] tail[k] == tail[0] by {
                    assert(tail[k] == line[rs + k]);
                }
                lemma_leading_run_exact(tail, len as int);
                assert(tail.skip(len as int) =~= line.skip(j as int));
                assert(line.skip(j as int).len() == 0);
                assert(adjacent_score(line.skip(j as int)) == 0);
                lemma_adjacent_score_bounds(line);
            }
            if len >= 5 {
                row_total = row_total + (len - 2);
            }
            proof {
                assert(row_total == adjacent_score(line));
                assert(total + row_total == adjacent_lines_score(g, w_int, is_horizontal, i as int
                    + 1));
                assert((i as int) * w_int + w_int == (i as int + 1) * w_int) by (nonlinear_arith);
                assert((i as int + 1) * w_int <= w_int * w_int) by (nonlinear_arith)
                    requires 0 <= i as int + 1 <= w_int;
                assert(w_int * w_int <= 31329) by (nonlinear_arith)
                    requires 0 < w_int <= 177;
            }
            total = total + row_total;
            i = i + 1;
        }
        total
    }
}


/// Whether the four modules of the 2-by-2 block with top-left corner
/// (i, j) hold identical values (color and masked mark alike).
pub open spec fn block_at(g: Seq<Module>, w: int, i: int, j: int) -> bool {
    &&& g[j * w + i] == g[j * w + i + 1]
    &&& g[j * w + i] == g[(j + 1) * w + i]
    &&& g[j * w + i] == g[(j + 1) * w + i + 1]
}

/// The block score of the first `m` rows of column strip `i`.
pub open spec fn block_cols_score(g: Seq<Module>, w: int, i: int, m: int) -> int
    decreases m,
{
    if m <= 0 {
        0
    } else {
        block_cols_score(g, w, i, m - 1) + if block_at(g, w, i, m - 1) {
            3int
        } else {
            0int
        }
    }
}

/// The block score of the first `n` column strips.
pub open spec fn block_rows_score(g: Seq<Module>, w: int, n: int) -> int
    decreases n,
{
    if n <= 0 {
        0
    } else {
        block_rows_score(g, w, n - 1) + block_cols_score(g, w, n - 1, w - 1)
    }
}

proof fn lemma_block_cols_bounds(g: Seq<Module>, w: int, i: int, m: int)
    requires
        0 <= m,
    ensures
        0 <= block_cols_score(g, w, i, m) <= 3 * m,
    decreases m,
{
    if m > 0 {
        lemma_block_cols_bounds(g, w, i, m - 1);
    }
}

proof fn lemma_block_rows_bounds(g: Seq<Module>, w: int, n: int)
    requires
        0 <= n,
        1 <= w,
    ensures
        0 <= block_rows_score(g, w, n) <= 3 * n * w,
    decreases n,
{
    if n > 0 {
        lemma_block_rows_bounds(g, w, n - 1);
        lemma_block_cols_bounds(g, w, n - 1, w - 1);
        assert(3 * (n - 1) * w + 3 * (w - 1) <= 3 * n * w) by (nonlinear_arith)
            requires 1 <= w;
    }
}

/// The module on line `i` at position `k` is dark; `horizontal` reads
/// lines as rows, otherwise as columns.
pub open spec fn line_dark_at(g: Seq<Module>, w: int, horizontal: bool, i: int, k: int) -> bool {
    (if horizontal {
        g[i * w + k]
    } else {
        g[k * w + i]
    }).color() is Dark
}

/// The seven modules of line `i` starting at `j` trace the dark-light
/// shape of a finder pattern.
pub open spec fn finder_like_at(g: Seq<Module>, w: int, horizontal: bool, i: int, j: int) -> bool {
    &&& line_dark_at(g, w, horizontal, i, j)
    &&& !line_dark_at(g, w, horizontal, i, j + 1)
    &&& line_dark_at(g, w, horizontal, i, j + 2)
    &&& line_dark_at(g, w, horizontal, i, j + 3)
    &&& line_dark_at(g, w, horizontal, i, j + 4)
    &&& !line_dark_at(g, w, horizontal, i, j + 5)
    &&& line_dark_at(g, w, horizontal, i, j + 6)
}

/// Some position of line `i` in `[lo, hi)` lies on the canvas and is
/// not light.
pub open spec fn window_has_dark(
    g: Seq<Module>,
    w: int,
    horizontal: bool,
    i: int,
    lo: int,
    hi: int,
) -> bool {
    exists|k: int| lo <= k < hi && 0 <= k < w && line_dark_at(g, w, horizontal, i, k)
}

/// The contribution of position (i, j): forty points for a finder-like
/// run unless both four-module windows beside it hold a dark module.
pub open spec fn finder_score_at(g: Seq<Module>, w: int, horizontal: bool, i: int, j: int) -> int {
    if finder_like_at(g, w, horizontal, i, j) && (!window_has_dark(g, w, horizontal, i, j - 4, j)
        || !window_has_dark(g, w, horizontal, i, j + 7, j + 11)) {
        40
    } else {
        0
    }
}

/// The finder scores of the first `m` start positions of line `i`.
pub open spec fn finder_cols_score(g: Seq<Module>, w: int, horizontal: bool, i: int, m: int) -> int
    decreases m,
{
    if m <= 0 {
        0
    } else {
        finder_cols_score(g, w, horizontal, i, m - 1) + finder_score_at(g, w, horizontal, i, m - 1)
    }
}

/// The finder scores of the first `n` lines.
pub open spec fn finder_rows_score(g: Seq<Module>, w: int, horizontal: bool, n: int) -> int
    decreases n,
{
    if n <= 0 {
        0
    } else {
        finder_rows_score(g, w, horizontal, n - 1) + finder_cols_score(g, w, horizontal, n - 1, w
            - 6)
    }
}

/// The finder penalty of one orientation: the scores of all lines, less
/// the fixed calibration amount that offsets the three real finders.
pub open spec fn finder_penalty(g: Seq<Module>, w: int, horizontal: bool) -> int {
    finder_rows_score(g, w, horizontal, w) - 360
}

proof fn lemma_finder_cols_bounds(g: Seq<Module>, w: int, horizontal: bool, i: int, m: int)
    requires
        0 <= m,
    ensures
        0 <= finder_cols_score(g, w, horizontal, i, m) <= 40 * m,
    decreases m,
{
    if m > 0 {
        lemma_finder_cols_bounds(g, w, horizontal, i, m - 1);
    }
}

proof fn lemma_finder_rows_bounds(g: Seq<Module>, w: int, horizontal: bool, n: int)
    requires
        0 <= n,
        7 <= w,
    ensures
        0 <= finder_rows_score(g, w, horizontal, n) <= 40 * n * w,
    decreases n,
{
    if n > 0 {
        lemma_finder_rows_bounds(g, w, horizontal, n - 1);
        lemma_finder_cols_bounds(g, w, horizontal, n - 1, w - 6);
        assert(40 * (n - 1) * w + 40 * (w - 6) <= 40 * n * w) by (nonlinear_arith)
            requires 7 <= w;
    }
}

/// How many of the first `n` modules of the grid are dark.
pub open spec fn dark_count(g: Seq<Module>, n: int) -> int
    decreases n,
{
    if n <= 0 {
        0
    } else {
        dark_count(g, n - 1) + if g[n - 1].color() is Dark {
            1int
        } else {
            0int
        }
    }
}

pub proof fn lemma_dark_count_bounds(g: Seq<Module>, n: int)
    requires
        0 <= n,
    ensures
        0 <= dark_count(g, n) <= n,
    decreases n,
{
    if n > 0 {
        lemma_dark_count_bounds(g, n - 1);
    }
}

/// The balance penalty: how far the share of dark modules, in steps of
/// half a percent, strays from one half.
pub open spec fn balance_penalty(g: Seq<Module>, w: int) -> int {
    let ratio = dark_count(g, w * w) * 200 / (w * w);
    if ratio >= 100 {
        ratio - 100
    } else {
        100 - ratio
    }
}

/// How many of positions 1 to `m - 1` of the bottom row are light.
pub open spec fn light_count_bottom(g: Seq<Module>, w: int, m: int) -> int
    decreases m,
{
    if m <= 1 {
        0
    } else {
        light_count_bottom(g, w, m - 1) + if g[(w - 1) * w + (m - 1)].color() is Dark {
            0int
        } else {
            1int
        }
    }
}

/// How many of positions 1 to `m - 1` of the rightmost column are light.
pub open spec fn light_count_right(g: Seq<Module>, w: int, m: int) -> int
    decreases m,
{
    if m <= 1 {
        0
    } else {
        light_count_right(g, w, m - 1) + if g[(m - 1) * w + (w - 1)].color() is Dark {
            0int
        } else {
            1int
        }
    }
}

proof fn lemma_light_count_bounds(g: Seq<Module>, w: int, m: int)
    ensures
        0 <= light_count_bottom(g, w, m) <= if m <= 1 { 0 } else { m - 1 },
        0 <= light_count_right(g, w, m) <= if m <= 1 { 0 } else { m - 1 },
    decreases m,
{
    if m > 1 {
        lemma_light_count_bounds(g, w, m - 1);
    }
}

/// The light-side penalty of Micro symbols: the light counts of the two
/// open sides, weighing the worse side fifteenfold.
pub open spec fn light_side_penalty(g: Seq<Module>, w: int) -> int {
    let h = light_count_bottom(g, w, w);
    let v = light_count_right(g, w, w);
    h + v + 15 * (if h >= v {
        h
    } else {
        v
    })
}

/// The total penalty of the canvas: for Normal symbols the sum of the
/// adjacency scores of both orientations, the block score, the finder
/// scores of both orientations and the balance score; for Micro symbols
/// the light-side score alone.
pub open spec fn total_penalty(g: Seq<Module>, w: int, version: Version) -> int {
    match version {
        Version::Normal(_) => adjacent_lines_score(g, w, true, w) + adjacent_lines_score(g, w,
            false, w) + block_rows_score(g, w, w - 1) + finder_penalty(g, w, true)
            + finder_penalty(g, w, false) + balance_penalty(g, w),
        Version::Micro(_) => light_side_penalty(g, w),
    }
}

impl Canvas {
    /// Whether the module on line `i` at position `k` is dark.
    fn line_dark(&self, horizontal: bool, i: i16, k: i16) -> (r: bool)
        requires
            self.wf(),
            0 <= i < self.spec_width(),
            0 <= k < self.spec_width(),
        ensures
            r == line_dark_at(self.grid(), self.spec_width(), horizontal, i as int, k as int),
    {
        proof {
            let w = self.spec_width();
            lemma_row_major(i as int, k as int, w);
            lemma_row_major(k as int, i as int, w);
            assert(0 <= (i as int) * w + k && (i as int) * w + k < w * w) by (nonlinear_arith)
                requires 0 <= i < w, 0 <= k < w, 0 < w;
            assert(0 <= (k as int) * w + i && (k as int) * w + i < w * w) by (nonlinear_arith)
                requires 0 <= i < w, 0 <= k < w, 0 < w;
        }
        if horizontal {
            self.get(k, i).is_dark()
        } else {
            self.get(i, k).is_dark()
        }
    }

    /// Whether some position of line `i` in `[lo, hi)` lies on the
    /// canvas and is not light.
    fn window_not_light(&self, horizontal: bool, i: i16, lo: i16, hi: i16) -> (r: bool)
        requires
            self.wf(),
            0 <= i < self.spec_width(),
            -200 <= lo,
            hi <= 400,
        ensures
            r == window_has_dark(self.grid(), self.spec_width(), horizontal, i as int, lo as int,
                hi as int),
    {
        let w = self.width();
        let mut k = lo;
        while k < hi
            invariant
                self.wf(),
                w == self.spec_width(),
                0 <= i < w,
                -200 <= lo,
                hi <= 400,
                lo <= k,
                forall|m: int| lo <= m < k ==> !(0 <= m < w && line_dark_at(self.grid(),
                    self.spec_width(), horizontal, i as int, m)),
            decreases hi - k,
        {
            if k >= 0 && k < w {
                if self.line_dark(horizontal, i, k) {
                    proof {
                        assert(lo <= k < hi as int && 0 <= k < w && line_dark_at(self.grid(),
                            self.spec_width(), horizontal, i as int, k as int));
                    }
                    return true;
                }
            }
            k = k + 1;
        }
        false
    }

    /// Computes the penalty for 2-by-2 blocks of identical modules:
    /// every such block, overlapping blocks included, scores three.
    pub fn compute_block_penalty_score(&self) -> (r: u32)
        requires
            self.wf(),
        ensures
            r == block_rows_score(self.grid(), self.spec_width(), self.spec_width() - 1),
    {
        let ghost g = self.grid();
        let ghost w_int = self.spec_width();
        let w = self.width();
        let mut total: u32 = 0;
        let mut i: i16 = 0;
        while i < w - 1
            invariant
                self.wf(),
                w == w_int,
                w_int == self.spec_width(),
                g == self.grid(),
                g.len() == w_int * w_int,
                0 <= i <= w - 1,
                total == block_rows_score(g, w_int, i as int),
            decreases w - 1 - i,
        {
            proof {
                lemma_block_rows_bounds(g, w_int, i as int);
            }
            let mut j: i16 = 0;
            while j < w - 1
                invariant
                    self.wf(),
                    w == w_int,
                    w_int == self.spec_width(),
                    g == self.grid(),
                    g.len() == w_int * w_int,
                    0 <= i < w - 1,
                    0 <= j <= w - 1,
                    block_rows_score(g, w_int, i as int) <= 3 * (i as int) * w_int,
                    total == block_rows_score(g, w_int, i as int) + block_cols_score(g, w_int,
                        i as int, j as int),
                decreases w - 1 - j,
            {
                proof {
                    lemma_block_cols_bounds(g, w_int, i as int, j as int);
                    assert(3 * (i as int) * w_int + 3 * w_int <= 3 * 177 * 177)
                        by (nonlinear_arith)
                        requires 0 <= i as int, (i as int) < w_int, 0 < w_int <= 177;
                    lemma_row_major(j as int, i as int, w_int);
                    lemma_row_major(j as int, i as int + 1, w_int);
                    lemma_row_major(j as int + 1, i as int, w_int);
                    lemma_row_major(j as int + 1, i as int + 1, w_int);
                    assert(0 <= (j as int) * w_int + i && ((j as int) + 1) * w_int + i + 1 < w_int
                        * w_int) by (nonlinear_arith)
                        requires 0 <= i, i + 1 < w_int, 0 <= j, j + 1 < w_int;
                }
                let this = self.get(i, j);
                let right = self.get(i + 1, j);
                let bottom = self.get(i, j + 1);
                let bottom_right = self.get(i + 1, j + 1);
                if this == right && right == bottom && bottom == bottom_right {
                    total = total + 3;
                }
                j = j + 1;
            }
            i = i + 1;
        }
        total
    }

    /// Computes the penalty for runs that could be mistaken for a finder
    /// pattern: forty points per occurrence, unless dark modules stand in
    /// both four-module windows beside it, less the fixed amount that the
    /// three real finder patterns of the symbol account for.
    pub fn compute_finder_penalty_score(&self, is_horizontal: bool) -> (r: i32)
        requires
            self.wf(),
        ensures
            r == finder_penalty(self.grid(), self.spec_width(), is_horizontal),
    {
        let ghost g = self.grid();
        let ghost w_int = self.spec_width();
        let w = self.width();
        let mut total: u32 = 0;
        let mut i: i16 = 0;
        while i < w
            invariant
                self.wf(),
                w == w_int,
                w_int == self.spec_width(),
                g == self.grid(),
                0 <= i <= w,
                total == finder_rows_score(g, w_int, is_horizontal, i as int),
            decreases w - i,
        {
            proof {
                lemma_finder_rows_bounds(g, w_int, is_horizontal, i as int);
            }
            let mut j: i16 = 0;
            while j < w - 6
                invariant
                    self.wf(),
                    w == w_int,
                    w_int == self.spec_width(),
                    g == self.grid(),
                    0 <= i < w,
                    0 <= j <= w - 6,
                    finder_rows_score(g, w_int, is_horizontal, i as int) <= 40 * (i as int)
                        * w_int,
                    total == finder_rows_score(g, w_int, is_horizontal, i as int)
                        + finder_cols_score(g, w_int, is_horizontal, i as int, j as int),
                decreases w - 6 - j,
            {
                proof {
                    lemma_finder_cols_bounds(g, w_int, is_horizontal, i as int, j as int);
                    assert(40 * (i as int) * w_int + 40 * w_int <= 40 * 177 * 177)
                        by (nonlinear_arith)
                        requires 0 <= i as int, (i as int) < w_int, 0 < w_int <= 177;
                }
                let p0 = self.line_dark(is_horizontal, i, j);
                let p1 = self.line_dark(is_horizontal, i, j + 1);
                let p2 = self.line_dark(is_horizontal, i, j + 2);
                let p3 = self.line_dark(is_horizontal, i, j + 3);
                let p4 = self.line_dark(is_horizontal, i, j + 4);
                let p5 = self.line_dark(is_horizontal, i, j + 5);
                let p6 = self.line_dark(is_horizontal, i, j + 6);
                if p0 && !p1 && p2 && p3 && p4 && !p5 && p6 {
                    let before = self.window_not_light(is_horizontal, i, j - 4, j);
                    let after = self.window_not_light(is_horizontal, i, j + 7, j + 11);
                    if !before || !after {
                        total = total + 40;
                    }
                }
                j = j + 1;
            }
            i = i + 1;
        }
        proof {
            lemma_finder_rows_bounds(g, w_int, is_horizontal, w_int);
            assert(40 * w_int * w_int <= 40 * 31329) by (nonlinear_arith)
                requires 0 < w_int <= 177;
        }
        (total as i32) - 360
    }

    /// Computes the penalty for an unbalanced share of dark modules: the
    /// distance, in steps of half a percent, from one half.
    pub fn compute_balance_penalty_score(&self) -> (r: u16)
        requires
            self.wf(),
        ensures
            r == balance_penalty(self.grid(), self.spec_width()),
    {
        let ghost g = self.grid();
        let ghost w_int = self.spec_width();
        let w = self.width();
        let mut dark: usize = 0;
        let mut y: i16 = 0;
        while y < w
            invariant
                self.wf(),
                w == w_int,
                w_int == self.spec_width(),
                g == self.grid(),
                g.len() == w_int * w_int,
                0 <= y <= w,
                dark == dark_count(g, (y as int) * w_int),
                dark <= (y as int) * w_int,
            decreases w - y,
        {
            let mut x: i16 = 0;
            while x < w
                invariant
                    self.wf(),
                    w == w_int,
                    w_int == self.spec_width(),
                    g == self.grid(),
                    g.len() == w_int * w_int,
                    0 <= y < w,
                    0 <= x <= w,
                    dark == dark_count(g, (y as int) * w_int + x as int),
                    dark <= (y as int) * w_int + x as int,
                decreases w - x,
            {
                proof {
                    lemma_row_major(y as int, x as int, w_int);
                    assert(0 <= (y as int) * w_int + x && (y as int) * w_int + x < w_int * w_int)
                        by (nonlinear_arith)
                        requires 0 <= x < w_int, 0 <= y < w_int;
                    assert(w_int * w_int <= 31329) by (nonlinear_arith)
                        requires 0 < w_int <= 177;
                }
                if self.get(x, y).is_dark() {
                    dark = dark + 1;
                }
                x = x + 1;
            }
            y = y + 1;
            proof {
                assert(((y as int) - 1) * w_int + w_int == (y as int) * w_int)
                    by (nonlinear_arith);
            }
        }
        proof {
            assert((w_int) * w_int <= 31329) by (nonlinear_arith)
                requires 0 < w_int <= 177;
        }
        let total_modules = (w as usize) * (w as usize);
        proof {
            lemma_dark_count_bounds(g, w_int * w_int);
            assert(1 <= w_int * w_int) by (nonlinear_arith)
                requires 1 <= w_int;
            assert(dark * 200 / (w_int * w_int) <= 200) by (nonlinear_arith)
                requires 0 <= dark <= w_int * w_int, 1 <= w_int * w_int;
        }
        let ratio = dark * 200 / total_modules;
        let r = if ratio >= 100 {
            ratio - 100
        } else {
            100 - ratio
        };
        r as u16
    }

    /// Computes the light-side penalty of Micro symbols: the light
    /// counts of the bottom row and the rightmost column (the corner
    /// excluded), weighing the worse side fifteenfold.
    pub fn compute_light_side_penalty_score(&self) -> (r: u16)
        requires
            self.wf(),
        ensures
            r == light_side_penalty(self.grid(), self.spec_width()),
    {
        let ghost g = self.grid();
        let ghost w_int = self.spec_width();
        let w = self.width();
        let mut h: u16 = 0;
        let mut v: u16 = 0;
        let mut j: i16 = 1;
        while j < w
            invariant
                self.wf(),
                w == w_int,
                w_int == self.spec_width(),
                g == self.grid(),
                g.len() == w_int * w_int,
                1 <= j <= w,
                h == light_count_bottom(g, w_int, j as int),
                v == light_count_right(g, w_int, j as int),
                h <= j - 1,
                v <= j - 1,
            decreases w - j,
        {
            proof {
                lemma_row_major(w_int - 1, j as int, w_int);
                lemma_row_major(j as int, w_int - 1, w_int);
                assert(0 <= (w_int - 1) * w_int + j && (w_int - 1) * w_int + j < w_int * w_int)
                    by (nonlinear_arith)
                    requires 0 < j < w_int, 0 < w_int;
                assert(0 <= (j as int) * w_int + w_int - 1 && (j as int) * w_int + w_int - 1
                    < w_int * w_int) by (nonlinear_arith)
                    requires 0 < j < w_int, 0 < w_int;
            }
            if !self.get(j, -1).is_dark() {
                h = h + 1;
            }
            if !self.get(-1, j).is_dark() {
                v = v + 1;
            }
            j = j + 1;
        }
        let m = if h >= v {
            h
        } else {
            v
        };
        h + v + 15 * m
    }

    /// Computes the total penalty of the canvas; a symbol with a higher
    /// total is less desirable.
    pub fn compute_total_penalty_scores(&self) -> (r: i32)
        requires
            self.wf(),
        ensures
            r == total_penalty(self.grid(), self.spec_width(), self.spec_version()),
    {
        match self.version() {
            Version::Normal(_) => {
                proof {
                    let g = self.grid();
                    let w = self.spec_width();
                    lemma_adjacent_lines_bounds(g, w, true, w);
                    lemma_adjacent_lines_bounds(g, w, false, w);
                    lemma_block_rows_bounds(g, w, w - 1);
                    lemma_finder_rows_bounds(g, w, true, w);
                    lemma_finder_rows_bounds(g, w, false, w);
                    lemma_dark_count_bounds(g, w * w);
                    assert(w * w <= 31329) by (nonlinear_arith)
                        requires 0 < w <= 177;
                    assert(3 * (w - 1) * w <= 3 * 31329) by (nonlinear_arith)
                        requires 0 < w <= 177;
                    assert(40 * w * w <= 40 * 31329) by (nonlinear_arith)
                        requires 0 < w <= 177;
                }
                let s1_a = self.compute_adjacent_penalty_score(true);
                let s1_b = self.compute_adjacent_penalty_score(false);
                let s2 = self.compute_block_penalty_score();
                let s3_a = self.compute_finder_penalty_score(true);
                let s3_b = self.compute_finder_penalty_score(false);
                let s4 = self.compute_balance_penalty_score();
                s1_a as i32 + s1_b as i32 + s2 as i32 + s3_a + s3_b + s4 as i32
            },
            Version::Micro(_) => self.compute_light_side_penalty_score() as i32,
        }
    }
}

} // verus!
