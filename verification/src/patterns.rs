//! The functional patterns: finder, alignment and timing patterns, the
//! reserved format-information region and the version-information blocks.

use vstd::prelude::*;
use crate::canvas::{Canvas, flat_index, grid_at, wrap_coord};
use crate::module::Module;
use crate::types::{Color, Version};

verus! {

broadcast use crate::canvas::lemma_grid_len, crate::canvas::lemma_wf_dimensions;

/// Division splits a row-major position back into its coordinates.
pub proof fn lemma_row_major(q: int, r: int, w: int)
    requires
        0 < w,
        0 <= r < w,
    ensures
        (q * w + r) / w == q,
        (q * w + r) % w == r,
{
    assert((q * w + r) / w == q && (q * w + r) % w == r) by (nonlinear_arith)
        requires 0 < w, 0 <= r < w;
}

/// The color of the finder pattern at offset (i, j) from its center:
/// a dark core, a light ring, a dark border and a light separator.
pub open spec fn finder_color(i: int, j: int) -> Color {
    if i == 4 || j == 4 || i == -4 || j == -4 {
        Color::Light
    } else if i == 3 || j == 3 || i == -3 || j == -3 {
        Color::Dark
    } else if i == 2 || j == 2 || i == -2 || j == -2 {
        Color::Light
    } else {
        Color::Dark
    }
}

/// The horizontal extent of the finder box around a center at `x`: the
/// separator is drawn on the side that faces the inside of the symbol.
pub open spec fn finder_lo(x: int) -> int {
    if x >= 0 {
        -3
    } else {
        -4
    }
}

pub open spec fn finder_hi(x: int) -> int {
    if x >= 0 {
        4
    } else {
        3
    }
}

/// The grid after drawing a finder pattern (with its separator) centered
/// at (x, y): every module of the box becomes masked with the pattern's
/// color, everything else stays.
pub open spec fn finder_box(g: Seq<Module>, w: int, x: int, y: int) -> Seq<Module> {
    let cx = wrap_coord(x, w);
    let cy = wrap_coord(y, w);
    Seq::new(g.len(), |idx: int| {
        let a = idx % w;
        let b = idx / w;
        if cx + finder_lo(x) <= a <= cx + finder_hi(x) && cy + finder_lo(y) <= b <= cy + finder_hi(y) {
            Module::Masked(finder_color(a - cx, b - cy))
        } else {
            g[idx]
        }
    })
}

/// The partially drawn finder box: rows above `j` are done, and within
/// row `j` the columns left of `i` (offsets from the center).
spec fn finder_box_partial(g: Seq<Module>, w: int, x: int, y: int, j: int, i: int) -> Seq<Module> {
    let cx = wrap_coord(x, w);
    let cy = wrap_coord(y, w);
    Seq::new(g.len(), |idx: int| {
        let a = idx % w;
        let b = idx / w;
        if cx + finder_lo(x) <= a <= cx + finder_hi(x) && cy + finder_lo(y) <= b <= cy + finder_hi(y)
            && (b - cy < j || (b - cy == j && a - cx < i)) {
            Module::Masked(finder_color(a - cx, b - cy))
        } else {
            g[idx]
        }
    })
}

/// The grid after drawing all finder patterns of the version: one in the
/// top-left corner, and for Normal symbols two more in the other corners.
pub open spec fn finder_patterns(g: Seq<Module>, w: int, version: Version) -> Seq<Module> {
    match version {
        Version::Micro(_) => finder_box(g, w, 3, 3),
        Version::Normal(_) => finder_box(finder_box(finder_box(g, w, 3, 3), w, -4, 3), w, 3, -4),
    }
}

impl Canvas {
    /// Draws a single finder pattern with the center at (x, y).
    fn draw_finder_pattern_at(&mut self, x: i16, y: i16)
        requires
            old(self).wf(),
            x >= 0 ==> 3 <= x <= old(self).spec_width() - 5,
            x < 0 ==> -old(self).spec_width() + 4 <= x <= -4,
            y >= 0 ==> 3 <= y <= old(self).spec_width() - 5,
            y < 0 ==> -old(self).spec_width() + 4 <= y <= -4,
        ensures
            final(self).wf(),
            final(self).spec_version() == old(self).spec_version(),
            final(self).spec_ec_level() == old(self).spec_ec_level(),
            final(self).spec_width() == old(self).spec_width(),
            final(self).grid() =~= finder_box(
                old(self).grid(),
                old(self).spec_width(),
                x as int,
                y as int,
            ),
    {
        let ghost g0 = old(self).grid();
        let ghost w = old(self).spec_width();
        let (dx_left, dx_right): (i16, i16) = if x >= 0 { (-3, 4) } else { (-4, 3) };
        let (dy_top, dy_bottom): (i16, i16) = if y >= 0 { (-3, 4) } else { (-4, 3) };
        let mut j = dy_top;
        while j <= dy_bottom
            invariant
                self.wf(),
                self.spec_version() == old(self).spec_version(),
                self.spec_ec_level() == old(self).spec_ec_level(),
                self.spec_width() == w,
                dy_top <= j <= dy_bottom + 1,
                dx_left == finder_lo(x as int) && dx_right == finder_hi(x as int),
                dy_top == finder_lo(y as int) && dy_bottom == finder_hi(y as int),
                x >= 0 ==> 3 <= x <= w - 5,
                x < 0 ==> -w + 4 <= x <= -4,
                y >= 0 ==> 3 <= y <= w - 5,
                y < 0 ==> -w + 4 <= y <= -4,
                self.grid() =~= finder_box_partial(g0, w, x as int, y as int, j as int,
                    dx_left as int),
            decreases dy_bottom + 1 - j,
        {
            let mut i = dx_left;
            while i <= dx_right
                invariant
                    self.wf(),
                    self.spec_version() == old(self).spec_version(),
                    self.spec_ec_level() == old(self).spec_ec_level(),
                    self.spec_width() == w,
                    dy_top <= j <= dy_bottom,
                    dx_left <= i <= dx_right + 1,
                    dx_left == finder_lo(x as int) && dx_right == finder_hi(x as int),
                    dy_top == finder_lo(y as int) && dy_bottom == finder_hi(y as int),
                    x >= 0 ==> 3 <= x <= w - 5,
                    x < 0 ==> -w + 4 <= x <= -4,
                    y >= 0 ==> 3 <= y <= w - 5,
                    y < 0 ==> -w + 4 <= y <= -4,
                    self.grid() =~= finder_box_partial(g0, w, x as int, y as int, j as int,
                        i as int),
                decreases dx_right + 1 - i,
            {
                let color = if i == 4 || j == 4 || i == -4 || j == -4 {
                    Color::Light
                } else if i == 3 || j == 3 || i == -3 || j == -3 {
                    Color::Dark
                } else if i == 2 || j == 2 || i == -2 || j == -2 {
                    Color::Light
                } else {
                    Color::Dark
                };
                let ghost pre = self.grid();
                self.put(x + i, y + j, color);
                proof {
                    lemma_finder_partial_step(g0, pre, w, x as int, y as int, j as int, i as int,
                        color);
                }
                i = i + 1;
            }
            j = j + 1;
            proof {
                assert(finder_box_partial(g0, w, x as int, y as int, j as int, dx_left as int)
                    =~= finder_box_partial(g0, w, x as int, y as int, (j - 1) as int,
                        (dx_right + 1) as int));
            }
        }
        proof {
            assert(finder_box(g0, w, x as int, y as int) =~= finder_box_partial(g0, w, x as int,
                y as int, (dy_bottom + 1) as int, dx_left as int));
        }
    }

    /// Draws the finder patterns: always in the top-left corner, and for
    /// Normal symbols in the top-right and bottom-left corners too.
    pub fn draw_finder_patterns(&mut self)
        requires
            old(self).wf(),
        ensures
            final(self).wf(),
            final(self).spec_version() == old(self).spec_version(),
            final(self).spec_ec_level() == old(self).spec_ec_level(),
            final(self).spec_width() == old(self).spec_width(),
            final(self).grid() =~= finder_patterns(
                old(self).grid(),
                old(self).spec_width(),
                old(self).spec_version(),
            ),
    {
        self.draw_finder_pattern_at(3, 3);
        match self.version() {
            Version::Micro(_) => {},
            Version::Normal(_) => {
                self.draw_finder_pattern_at(-4, 3);
                self.draw_finder_pattern_at(3, -4);
            },
        }
    }
}

/// One `put` of the finder color at offsets (i, j) advances the partially
/// drawn finder box by one module.
proof fn lemma_finder_partial_step(
    g0: Seq<Module>,
    pre: Seq<Module>,
    w: int,
    x: int,
    y: int,
    j: int,
    i: int,
    color: Color,
)
    requires
        11 <= w <= 177,
        x >= 0 ==> 3 <= x <= w - 5,
        x < 0 ==> -w + 4 <= x <= -4,
        y >= 0 ==> 3 <= y <= w - 5,
        y < 0 ==> -w + 4 <= y <= -4,
        finder_lo(x) <= i <= finder_hi(x),
        finder_lo(y) <= j <= finder_hi(y),
        g0.len() == w * w,
        pre =~= finder_box_partial(g0, w, x, y, j, i),
        color == finder_color(i, j),
    ensures
        pre.update(flat_index(x + i, y + j, w), Module::Masked(color)) =~= finder_box_partial(
            g0,
            w,
            x,
            y,
            j,
            i + 1,
        ),
{
    let cx = wrap_coord(x, w);
    let cy = wrap_coord(y, w);
    let fi = flat_index(x + i, y + j, w);
    assert(wrap_coord(x + i, w) == cx + i);
    assert(wrap_coord(y + j, w) == cy + j);
    assert(fi == (cy + j) * w + (cx + i));
    lemma_row_major(cy + j, cx + i, w);
    assert(0 <= fi < w * w) by (nonlinear_arith)
        requires fi == (cy + j) * w + (cx + i), 0 <= cy + j < w, 0 <= cx + i < w;
    let lhs = pre.update(fi, Module::Masked(color));
    let rhs = finder_box_partial(g0, w, x, y, j, i + 1);
    assert forall|idx: int| 0 <= idx < g0.len() implies lhs[idx] == rhs[idx] by {
        let a = idx % w;
        let b = idx / w;
        lemma_row_major(b, a, w);
        if idx == fi {
            lemma_row_major(cy + j, cx + i, w);
            assert(a == cx + i && b == cy + j);
        } else {
            assert(idx == b * w + a) by (nonlinear_arith)
                requires a == idx % w, b == idx / w, 0 < w;
            assert(!(a == cx + i && b == cy + j));
        }
    }
}


/// The color of the alignment pattern at offset (i, j) from its center:
/// a dark border, a light ring and a dark center module.
pub open spec fn alignment_color(i: int, j: int) -> Color {
    if i == 2 || j == 2 || i == -2 || j == -2 || (i == 0 && j == 0) {
        Color::Dark
    } else {
        Color::Light
    }
}

/// The grid after an alignment-pattern draw aimed at (x, y): nothing
/// changes when the pivot module is already masked (a finder pattern
/// stands there); otherwise the 5-by-5 box becomes masked with the
/// pattern's colors.
pub open spec fn alignment_box(g: Seq<Module>, w: int, x: int, y: int) -> Seq<Module> {
    let cx = wrap_coord(x, w);
    let cy = wrap_coord(y, w);
    if g[cy * w + cx].is_masked() {
        g
    } else {
        Seq::new(g.len(), |idx: int| {
            let a = idx % w;
            let b = idx / w;
            if cx - 2 <= a <= cx + 2 && cy - 2 <= b <= cy + 2 {
                Module::Masked(alignment_color(a - cx, b - cy))
            } else {
                g[idx]
            }
        })
    }
}

/// The partially drawn 5-by-5 alignment box (offsets from the center).
spec fn alignment_box_partial(g: Seq<Module>, w: int, x: int, y: int, j: int, i: int) -> Seq<
    Module,
> {
    let cx = wrap_coord(x, w);
    let cy = wrap_coord(y, w);
    Seq::new(g.len(), |idx: int| {
        let a = idx % w;
        let b = idx / w;
        if cx - 2 <= a <= cx + 2 && cy - 2 <= b <= cy + 2 && (b - cy < j || (b - cy == j && a - cx
            < i)) {
            Module::Masked(alignment_color(a - cx, b - cy))
        } else {
            g[idx]
        }
    })
}

/// One `put` of the alignment color at offsets (i, j) advances the
/// partially drawn alignment box by one module.
proof fn lemma_alignment_partial_step(
    g0: Seq<Module>,
    pre: Seq<Module>,
    w: int,
    x: int,
    y: int,
    j: int,
    i: int,
    color: Color,
)
    requires
        11 <= w <= 177,
        x >= 0 ==> 2 <= x <= w - 3,
        x < 0 ==> -w + 2 <= x <= -3,
        y >= 0 ==> 2 <= y <= w - 3,
        y < 0 ==> -w + 2 <= y <= -3,
        -2 <= i <= 2,
        -2 <= j <= 2,
        g0.len() == w * w,
        pre =~= alignment_box_partial(g0, w, x, y, j, i),
        color == alignment_color(i, j),
    ensures
        pre.update(flat_index(x + i, y + j, w), Module::Masked(color)) =~= alignment_box_partial(
            g0,
            w,
            x,
            y,
            j,
            i + 1,
        ),
{
    let cx = wrap_coord(x, w);
    let cy = wrap_coord(y, w);
    let fi = flat_index(x + i, y + j, w);
    assert(wrap_coord(x + i, w) == cx + i);
    assert(wrap_coord(y + j, w) == cy + j);
    assert(fi == (cy + j) * w + (cx + i));
    lemma_row_major(cy + j, cx + i, w);
    assert(0 <= fi < w * w) by (nonlinear_arith)
        requires fi == (cy + j) * w + (cx + i), 0 <= cy + j < w, 0 <= cx + i < w;
    let lhs = pre.update(fi, Module::Masked(color));
    let rhs = alignment_box_partial(g0, w, x, y, j, i + 1);
    assert forall|idx: int| 0 <= idx < g0.len() implies lhs[idx] == rhs[idx] by {
        let a = idx % w;
        let b = idx / w;
        lemma_row_major(b, a, w);
        if idx == fi {
            lemma_row_major(cy + j, cx + i, w);
            assert(a == cx + i && b == cy + j);
        } else {
            assert(idx == b * w + a) by (nonlinear_arith)
                requires a == idx % w, b == idx / w, 0 < w;
            assert(!(a == cx + i && b == cy + j));
        }
    }
}

/// The grid after aiming alignment draws at (x, pos[0]) .. (x, pos[m-1]).
pub open spec fn alignment_column(g: Seq<Module>, w: int, x: i16, pos: Seq<i16>, m: int) -> Seq<
    Module,
>
    decreases m,
{
    if m <= 0 {
        g
    } else {
        alignment_box(alignment_column(g, w, x, pos, m - 1), w, x as int, pos[m - 1] as int)
    }
}

/// The grid after aiming alignment draws at every pair of the product
/// pos[0..n] with pos, in the order the drawing pass walks them.
pub open spec fn alignment_product(g: Seq<Module>, w: int, pos: Seq<i16>, n: int) -> Seq<Module>
    decreases n,
{
    if n <= 0 {
        g
    } else {
        alignment_column(alignment_product(g, w, pos, n - 1), w, pos[n - 1], pos, pos.len() as int)
    }
}

/// The grid after the alignment-pattern pass of the version: none for
/// Micro symbols and Normal version 1, a single pattern seven modules in
/// from the bottom-right corner for Normal versions 2 to 6, and the
/// product grid of the center table for Normal versions 7 and up.
pub open spec fn alignment_patterns(g: Seq<Module>, w: int, version: Version) -> Seq<Module> {
    match version {
        Version::Micro(_) => g,
        Version::Normal(a) => if a == 1 {
            g
        } else if 2 <= a <= 6 {
            alignment_box(g, w, -7, -7)
        } else {
            alignment_product(g, w, crate::tables::spec_alignment_positions(a as int),
                crate::tables::spec_alignment_positions(a as int).len() as int)
        },
    }
}

impl Canvas {
    /// Draws an alignment pattern with the center at (x, y), unless the
    /// pivot module is already masked (it then belongs to a finder
    /// pattern, which must not be overwritten).
    pub fn draw_alignment_pattern_at(&mut self, x: i16, y: i16)
        requires
            old(self).wf(),
            x >= 0 ==> 2 <= x <= old(self).spec_width() - 3,
            x < 0 ==> -old(self).spec_width() + 2 <= x <= -3,
            y >= 0 ==> 2 <= y <= old(self).spec_width() - 3,
            y < 0 ==> -old(self).spec_width() + 2 <= y <= -3,
        ensures
            final(self).wf(),
            final(self).spec_version() == old(self).spec_version(),
            final(self).spec_ec_level() == old(self).spec_ec_level(),
            final(self).spec_width() == old(self).spec_width(),
            final(self).grid() =~= alignment_box(
                old(self).grid(),
                old(self).spec_width(),
                x as int,
                y as int,
            ),
            grid_at(old(self).grid(), old(self).spec_width(), x as int, y as int).is_masked()
                ==> final(self).grid() == old(self).grid(),
    {
        let ghost g0 = old(self).grid();
        let ghost w = old(self).spec_width();
        if let Module::Masked(_) = self.get(x, y) {
            return ;
        }
        proof {
            assert(wrap_coord(y as int, w) * w + wrap_coord(x as int, w) == flat_index(x as int,
                y as int, w));
        }
        let mut j: i16 = -2;
        while j <= 2
            invariant
                self.wf(),
                self.spec_version() == old(self).spec_version(),
                self.spec_ec_level() == old(self).spec_ec_level(),
                self.spec_width() == w,
                -2 <= j <= 3,
                x >= 0 ==> 2 <= x <= w - 3,
                x < 0 ==> -w + 2 <= x <= -3,
                y >= 0 ==> 2 <= y <= w - 3,
                y < 0 ==> -w + 2 <= y <= -3,
                !g0[wrap_coord(y as int, w) * w + wrap_coord(x as int, w)].is_masked(),
                self.grid() =~= alignment_box_partial(g0, w, x as int, y as int, j as int, -2),
            decreases 3 - j,
        {
            let mut i: i16 = -2;
            while i <= 2
                invariant
                    self.wf(),
                    self.spec_version() == old(self).spec_version(),
                    self.spec_ec_level() == old(self).spec_ec_level(),
                    self.spec_width() == w,
                    -2 <= j <= 2,
                    -2 <= i <= 3,
                    x >= 0 ==> 2 <= x <= w - 3,
                    x < 0 ==> -w + 2 <= x <= -3,
                    y >= 0 ==> 2 <= y <= w - 3,
                    y < 0 ==> -w + 2 <= y <= -3,
                    !g0[wrap_coord(y as int, w) * w + wrap_coord(x as int, w)].is_masked(),
                    self.grid() =~= alignment_box_partial(g0, w, x as int, y as int, j as int,
                        i as int),
                decreases 3 - i,
            {
                let color = if i == 2 || j == 2 || i == -2 || j == -2 || (i == 0 && j == 0) {
                    Color::Dark
                } else {
                    Color::Light
                };
                let ghost pre = self.grid();
                self.put(x + i, y + j, color);
                proof {
                    lemma_alignment_partial_step(g0, pre, w, x as int, y as int, j as int,
                        i as int, color);
                }
                i = i + 1;
            }
            j = j + 1;
            proof {
                assert(alignment_box_partial(g0, w, x as int, y as int, j as int, -2)
                    =~= alignment_box_partial(g0, w, x as int, y as int, (j - 1) as int, 3));
            }
        }
        proof {
            assert(self.grid() =~= alignment_box_partial(g0, w, x as int, y as int, 3, -2));
            assert(alignment_box(g0, w, x as int, y as int) =~= alignment_box_partial(g0, w,
                x as int, y as int, 3, -2));
        }
    }

    /// Draws the alignment patterns of the version.
    pub fn draw_alignment_patterns(&mut self)
        requires
            old(self).wf(),
        ensures
            final(self).wf(),
            final(self).spec_version() == old(self).spec_version(),
            final(self).spec_ec_level() == old(self).spec_ec_level(),
            final(self).spec_width() == old(self).spec_width(),
            final(self).grid() =~= alignment_patterns(
                old(self).grid(),
                old(self).spec_width(),
                old(self).spec_version(),
            ),
    {
        let ghost g0 = old(self).grid();
        let ghost w = old(self).spec_width();
        match self.version() {
            Version::Micro(_) => {},
            Version::Normal(a) => {
                if a == 1 {
                } else if a <= 6 {
                    self.draw_alignment_pattern_at(-7, -7);
                } else {
                    let positions = crate::tables::alignment_positions(a);
                    let n = positions.len();
                    let ghost pos = positions@;
                    let mut ix: usize = 0;
                    while ix < n
                        invariant
                            self.wf(),
                            self.spec_version() == old(self).spec_version(),
                            self.spec_ec_level() == old(self).spec_ec_level(),
                            self.spec_width() == w,
                            old(self).spec_version() == Version::Normal(a),
                            7 <= a <= 40,
                            pos == positions@,
                            n == pos.len(),
                            3 <= n <= 7,
                            forall|k: int| 0 <= k < pos.len() ==> 6 <= #[trigger] pos[k] <= w - 7,
                            ix <= n,
                            self.grid() =~= alignment_product(g0, w, pos, ix as int),
                        decreases n - ix,
                    {
                        let x = positions[ix];
                        let mut iy: usize = 0;
                        while iy < n
                            invariant
                                self.wf(),
                                self.spec_version() == old(self).spec_version(),
                                self.spec_ec_level() == old(self).spec_ec_level(),
                                self.spec_width() == w,
                                pos == positions@,
                                n == pos.len(),
                                3 <= n <= 7,
                                forall|k: int| 0 <= k < pos.len() ==> 6 <= #[trigger] pos[k] <= w
                                    - 7,
                                ix < n,
                                x == pos[ix as int],
                                iy <= n,
                                self.grid() =~= alignment_column(alignment_product(g0, w, pos,
                                    ix as int), w, x, pos, iy as int),
                            decreases n - iy,
                        {
                            let y = positions[iy];
                            self.draw_alignment_pattern_at(x, y);
                            iy = iy + 1;
                        }
                        ix = ix + 1;
                    }
                    proof {
                        assert(self.grid() =~= alignment_product(g0, w, pos, pos.len() as int));
                    }
                }
            },
        }
    }
}


/// The grid after drawing a straight horizontal or vertical line from
/// (x1, y1) to (x2, y2) inclusive, with `ce` on even and `co` on odd
/// coordinates. When the coordinates describe a single point, the line
/// counts as horizontal.
pub open spec fn line_pattern(
    g: Seq<Module>,
    w: int,
    x1: int,
    y1: int,
    x2: int,
    y2: int,
    ce: Color,
    co: Color,
) -> Seq<Module> {
    Seq::new(g.len(), |idx: int| {
        let a = idx % w;
        let b = idx / w;
        if y1 == y2 {
            if b == y1 && x1 <= a <= x2 {
                Module::Masked(if a % 2 == 0 { ce } else { co })
            } else {
                g[idx]
            }
        } else {
            if a == x1 && y1 <= b <= y2 {
                Module::Masked(if b % 2 == 0 { ce } else { co })
            } else {
                g[idx]
            }
        }
    })
}

/// The horizontal line drawn only left of column `c`.
spec fn line_h_partial(
    g: Seq<Module>,
    w: int,
    x1: int,
    y1: int,
    x2: int,
    c: int,
    ce: Color,
    co: Color,
) -> Seq<Module> {
    Seq::new(g.len(), |idx: int| {
        let a = idx % w;
        let b = idx / w;
        if b == y1 && x1 <= a <= x2 && a < c {
            Module::Masked(if a % 2 == 0 { ce } else { co })
        } else {
            g[idx]
        }
    })
}

/// The vertical line drawn only above row `c`.
spec fn line_v_partial(
    g: Seq<Module>,
    w: int,
    x1: int,
    y1: int,
    y2: int,
    c: int,
    ce: Color,
    co: Color,
) -> Seq<Module> {
    Seq::new(g.len(), |idx: int| {
        let a = idx % w;
        let b = idx / w;
        if a == x1 && y1 <= b <= y2 && b < c {
            Module::Masked(if b % 2 == 0 { ce } else { co })
        } else {
            g[idx]
        }
    })
}

/// One `put` extends a partially drawn line by one module.
proof fn lemma_line_step(
    g0: Seq<Module>,
    pre: Seq<Module>,
    w: int,
    horizontal: bool,
    x1: int,
    y1: int,
    x2: int,
    y2: int,
    c: int,
    ce: Color,
    co: Color,
)
    requires
        11 <= w <= 177,
        0 <= x1 < w,
        0 <= y1 < w,
        0 <= x2 < w,
        0 <= y2 < w,
        g0.len() == w * w,
        horizontal ==> x1 <= c <= x2 && pre =~= line_h_partial(g0, w, x1, y1, x2, c, ce, co),
        !horizontal ==> y1 <= c <= y2 && pre =~= line_v_partial(g0, w, x1, y1, y2, c, ce, co),
    ensures
        horizontal ==> pre.update(
            flat_index(c, y1, w),
            Module::Masked(if c % 2 == 0 { ce } else { co }),
        ) =~= line_h_partial(g0, w, x1, y1, x2, c + 1, ce, co),
        !horizontal ==> pre.update(
            flat_index(x1, c, w),
            Module::Masked(if c % 2 == 0 { ce } else { co }),
        ) =~= line_v_partial(g0, w, x1, y1, y2, c + 1, ce, co),
{
    if horizontal {
        let fi = flat_index(c, y1, w);
        assert(fi == y1 * w + c);
        lemma_row_major(y1, c, w);
        assert(0 <= fi < w * w) by (nonlinear_arith)
            requires fi == y1 * w + c, 0 <= y1 < w, 0 <= c < w;
        let lhs = pre.update(fi, Module::Masked(if c % 2 == 0 { ce } else { co }));
        let rhs = line_h_partial(g0, w, x1, y1, x2, c + 1, ce, co);
        assert forall|idx: int| 0 <= idx < g0.len() implies lhs[idx] == rhs[idx] by {
            let a = idx % w;
            let b = idx / w;
            lemma_row_major(b, a, w);
            if idx == fi {
                lemma_row_major(y1, c, w);
                assert(a == c && b == y1);
            } else {
                assert(idx == b * w + a) by (nonlinear_arith)
                    requires a == idx % w, b == idx / w, 0 < w;
                assert(!(a == c && b == y1));
            }
        }
    } else {
        let fi = flat_index(x1, c, w);
        assert(fi == c * w + x1);
        lemma_row_major(c, x1, w);
        assert(0 <= fi < w * w) by (nonlinear_arith)
            requires fi == c * w + x1, 0 <= c < w, 0 <= x1 < w;
        let lhs = pre.update(fi, Module::Masked(if c % 2 == 0 { ce } else { co }));
        let rhs = line_v_partial(g0, w, x1, y1, y2, c + 1, ce, co);
        assert forall|idx: int| 0 <= idx < g0.len() implies lhs[idx] == rhs[idx] by {
            let a = idx % w;
            let b = idx / w;
            lemma_row_major(b, a, w);
            if idx == fi {
                lemma_row_major(c, x1, w);
                assert(a == x1 && b == c);
            } else {
                assert(idx == b * w + a) by (nonlinear_arith)
                    requires a == idx % w, b == idx / w, 0 < w;
                assert(!(a == x1 && b == c));
            }
        }
    }
}

/// The grid after the timing patterns of the version: two alternating
/// lines, along row and column 6 for Normal symbols and along the top
/// and left edges for Micro symbols.
pub open spec fn timing_patterns(g: Seq<Module>, w: int, version: Version) -> Seq<Module> {
    match version {
        Version::Micro(_) => line_pattern(line_pattern(g, w, 8, 0, w - 1, 0, Color::Dark,
            Color::Light), w, 0, 8, 0, w - 1, Color::Dark, Color::Light),
        Version::Normal(_) => line_pattern(line_pattern(g, w, 8, 6, w - 9, 6, Color::Dark,
            Color::Light), w, 6, 8, 6, w - 9, Color::Dark, Color::Light),
    }
}

impl Canvas {
    /// Draws a horizontal or vertical line from (x1, y1) to (x2, y2),
    /// inclusively, plotting `color_even` on even and `color_odd` on odd
    /// coordinates along the direction of the line.
    pub fn draw_line(&mut self, x1: i16, y1: i16, x2: i16, y2: i16, color_even: Color,
        color_odd: Color)
        requires
            old(self).wf(),
            x1 == x2 || y1 == y2,
            0 <= x1 <= x2 < old(self).spec_width(),
            0 <= y1 <= y2 < old(self).spec_width(),
        ensures
            final(self).wf(),
            final(self).spec_version() == old(self).spec_version(),
            final(self).spec_ec_level() == old(self).spec_ec_level(),
            final(self).spec_width() == old(self).spec_width(),
            final(self).grid() =~= line_pattern(
                old(self).grid(),
                old(self).spec_width(),
                x1 as int,
                y1 as int,
                x2 as int,
                y2 as int,
                color_even,
                color_odd,
            ),
    {
        let ghost g0 = old(self).grid();
        let ghost w = old(self).spec_width();
        if y1 == y2 {
            let mut x = x1;
            while x <= x2
                invariant
                    self.wf(),
                    self.spec_version() == old(self).spec_version(),
                    self.spec_ec_level() == old(self).spec_ec_level(),
                    self.spec_width() == w,
                    y1 == y2,
                    0 <= x1 <= x2 < w,
                    0 <= y1 < w,
                    x1 <= x <= x2 + 1,
                    self.grid() =~= line_h_partial(g0, w, x1 as int, y1 as int, x2 as int,
                        x as int, color_even, color_odd),
                decreases x2 + 1 - x,
            {
                let color = if x % 2 == 0 { color_even } else { color_odd };
                let ghost pre = self.grid();
                self.put(x, y1, color);
                proof {
                    lemma_line_step(g0, pre, w, true, x1 as int, y1 as int, x2 as int, y2 as int,
                        x as int, color_even, color_odd);
                }
                x = x + 1;
            }
            proof {
                assert(self.grid() =~= line_pattern(g0, w, x1 as int, y1 as int, x2 as int,
                    y2 as int, color_even, color_odd));
            }
        } else {
            let mut y = y1;
            while y <= y2
                invariant
                    self.wf(),
                    self.spec_version() == old(self).spec_version(),
                    self.spec_ec_level() == old(self).spec_ec_level(),
                    self.spec_width() == w,
                    y1 != y2,
                    x1 == x2,
                    0 <= x1 < w,
                    0 <= y1 <= y2 < w,
                    y1 <= y <= y2 + 1,
                    self.grid() =~= line_v_partial(g0, w, x1 as int, y1 as int, y2 as int,
                        y as int, color_even, color_odd),
                decreases y2 + 1 - y,
            {
                let color = if y % 2 == 0 { color_even } else { color_odd };
                let ghost pre = self.grid();
                self.put(x1, y, color);
                proof {
                    lemma_line_step(g0, pre, w, false, x1 as int, y1 as int, x2 as int, y2 as int,
                        y as int, color_even, color_odd);
                }
                y = y + 1;
            }
            proof {
                assert(self.grid() =~= line_pattern(g0, w, x1 as int, y1 as int, x2 as int,
                    y2 as int, color_even, color_odd));
            }
        }
    }

    /// Draws the timing patterns: checkerboard lines that give the
    /// scanner its fine-grained module coordinates.
    pub fn draw_timing_patterns(&mut self)
        requires
            old(self).wf(),
        ensures
            final(self).wf(),
            final(self).spec_version() == old(self).spec_version(),
            final(self).spec_ec_level() == old(self).spec_ec_level(),
            final(self).spec_width() == old(self).spec_width(),
            final(self).grid() =~= timing_patterns(
                old(self).grid(),
                old(self).spec_width(),
                old(self).spec_version(),
            ),
    {
        let width = self.width();
        let (y, x1, x2): (i16, i16, i16) = match self.version() {
            Version::Micro(_) => (0, 8, width - 1),
            Version::Normal(_) => (6, 8, width - 9),
        };
        self.draw_line(x1, y, x2, y, Color::Dark, Color::Light);
        self.draw_line(y, x1, y, x2, Color::Dark, Color::Light);
    }
}


/// Bit `k` of an unsigned word of `bits` bits, counted from the most
/// significant bit down.
pub open spec fn number_bit(number: u32, bits: u32, k: int) -> bool {
    number & (1u32 << ((bits - 1 - k) as u32)) != 0
}

/// The grid after plotting the first `n` bits of `number` (most
/// significant first) along the coordinate list: `on` for one bits,
/// `off` for zero bits, all masked.
pub open spec fn number_pattern_upto(
    g: Seq<Module>,
    w: int,
    number: u32,
    bits: u32,
    on: Color,
    off: Color,
    coords: Seq<(i16, i16)>,
    n: int,
) -> Seq<Module>
    decreases n,
{
    if n <= 0 {
        g
    } else {
        number_pattern_upto(g, w, number, bits, on, off, coords, n - 1).update(
            flat_index(coords[n - 1].0 as int, coords[n - 1].1 as int, w),
            Module::Masked(if number_bit(number, bits, n - 1) { on } else { off }),
        )
    }
}

/// The grid after plotting all bits of `number` along the coordinate list.
pub open spec fn number_pattern(
    g: Seq<Module>,
    w: int,
    number: u32,
    bits: u32,
    on: Color,
    off: Color,
    coords: Seq<(i16, i16)>,
) -> Seq<Module> {
    number_pattern_upto(g, w, number, bits, on, off, coords, coords.len() as int)
}

/// The grid after writing the 15-bit format-information word `fi` into
/// the reserved positions of the version: one list beside the finder for
/// Micro symbols; two lists and the fixed dark module for Normal symbols.
pub open spec fn format_info_pattern(g: Seq<Module>, w: int, version: Version, fi: u16) -> Seq<
    Module,
> {
    match version {
        Version::Micro(_) => number_pattern(g, w, fi as u32, 15, Color::Dark, Color::Light,
            crate::tables::spec_format_info_coords_micro_qr()),
        Version::Normal(_) => number_pattern(
            number_pattern(g, w, fi as u32, 15, Color::Dark, Color::Light,
                crate::tables::spec_format_info_coords_qr_main()),
            w,
            fi as u32,
            15,
            Color::Dark,
            Color::Light,
            crate::tables::spec_format_info_coords_qr_side(),
        ).update(flat_index(8, -8, w), Module::Masked(Color::Dark)),
    }
}

/// The grid after the version-information pass: Normal versions 7 and up
/// write the 18-bit version word into both blocks; other symbols have
/// no version information.
pub open spec fn version_info_patterns(g: Seq<Module>, w: int, version: Version) -> Seq<Module> {
    match version {
        Version::Micro(_) => g,
        Version::Normal(a) => if a <= 6 {
            g
        } else {
            number_pattern(
                number_pattern(g, w, crate::tables::spec_version_info(a as int), 18, Color::Dark,
                    Color::Light, crate::tables::spec_version_info_coords_bl()),
                w,
                crate::tables::spec_version_info(a as int),
                18,
                Color::Dark,
                Color::Light,
                crate::tables::spec_version_info_coords_tr(),
            )
        },
    }
}

/// The grid after all functional patterns have been drawn on `g`: finder
/// patterns, alignment patterns, the format-information region reserved
/// with word zero, timing patterns, and the version information.
pub open spec fn functional_patterns(g: Seq<Module>, w: int, version: Version) -> Seq<Module> {
    version_info_patterns(
        timing_patterns(
            format_info_pattern(alignment_patterns(finder_patterns(g, w, version), w, version), w,
                version, 0),
            w,
            version,
        ),
        w,
        version,
    )
}

impl Canvas {
    /// Plots a big-endian number of `bits` bits along the coordinate
    /// list, most significant bit first: `on_color` for one bits,
    /// `off_color` for zero bits, every plotted module masked.
    pub fn draw_number(&mut self, number: u32, bits: u32, on_color: Color, off_color: Color,
        coords: &Vec<(i16, i16)>)
        requires
            old(self).wf(),
            1 <= bits <= 32,
            coords@.len() == bits,
            forall|k: int| 0 <= k < coords@.len() ==> -old(self).spec_width()
                <= #[trigger] coords@[k].0 < old(self).spec_width() && -old(self).spec_width()
                <= coords@[k].1 < old(self).spec_width(),
        ensures
            final(self).wf(),
            final(self).spec_version() == old(self).spec_version(),
            final(self).spec_ec_level() == old(self).spec_ec_level(),
            final(self).spec_width() == old(self).spec_width(),
            final(self).grid() =~= number_pattern(
                old(self).grid(),
                old(self).spec_width(),
                number,
                bits,
                on_color,
                off_color,
                coords@,
            ),
    {
        let ghost g0 = old(self).grid();
        let ghost w = old(self).spec_width();
        let mut mask: u32 = 1u32 << (bits - 1);
        let n = coords.len();
        let mut k: usize = 0;
        proof {
            assert(1u32 << ((bits - 1) as u32) != 0) by (bit_vector)
                requires 1 <= bits <= 32;
        }
        while k < n
            invariant
                self.wf(),
                self.spec_version() == old(self).spec_version(),
                self.spec_ec_level() == old(self).spec_ec_level(),
                self.spec_width() == w,
                1 <= bits <= 32,
                n == coords@.len(),
                n == bits,
                forall|j: int| 0 <= j < coords@.len() ==> -w <= #[trigger] coords@[j].0 < w && -w
                    <= coords@[j].1 < w,
                k <= n,
                k < n ==> mask == 1u32 << ((bits - 1 - k) as u32),
                self.grid() =~= number_pattern_upto(g0, w, number, bits, on_color, off_color,
                    coords@, k as int),
            decreases n - k,
        {
            let (cx, cy) = coords[k];
            let color = if (mask & number) == 0 {
                off_color
            } else {
                on_color
            };
            proof {
                let s = (bits - 1 - k) as u32;
                assert(((1u32 << s) & number == 0) == (number & (1u32 << s) == 0)) by (bit_vector);
            }
            let ghost pre = self.grid();
            self.put(cx, cy, color);
            proof {
                assert(self.grid() =~= number_pattern_upto(g0, w, number, bits, on_color,
                    off_color, coords@, k as int + 1));
            }
            mask = mask >> 1;
            k = k + 1;
            proof {
                let s = (bits - k) as u32;
                if k < n {
                    assert((1u32 << s) >> 1 == 1u32 << (s - 1) as u32) by (bit_vector)
                        requires 1 <= s < 32;
                }
            }
        }
    }

    /// Writes an already encoded 15-bit format-information word into the
    /// format region of the symbol.
    pub fn draw_format_info_patterns_with_number(&mut self, format_info: u16)
        requires
            old(self).wf(),
        ensures
            final(self).wf(),
            final(self).spec_version() == old(self).spec_version(),
            final(self).spec_ec_level() == old(self).spec_ec_level(),
            final(self).spec_width() == old(self).spec_width(),
            final(self).grid() =~= format_info_pattern(
                old(self).grid(),
                old(self).spec_width(),
                old(self).spec_version(),
                format_info,
            ),
    {
        let number = format_info as u32;
        match self.version() {
            Version::Micro(_) => {
                let coords = crate::tables::format_info_coords_micro_qr();
                self.draw_number(number, 15, Color::Dark, Color::Light, &coords);
            },
            Version::Normal(_) => {
                let main = crate::tables::format_info_coords_qr_main();
                self.draw_number(number, 15, Color::Dark, Color::Light, &main);
                let side = crate::tables::format_info_coords_qr_side();
                self.draw_number(number, 15, Color::Dark, Color::Light, &side);
                self.put(8, -8, Color::Dark);
            },
        }
    }

    /// Reserves the format-information region by writing the word zero,
    /// so that the data walk passes the region by.
    pub fn draw_reserved_format_info_patterns(&mut self)
        requires
            old(self).wf(),
        ensures
            final(self).wf(),
            final(self).spec_version() == old(self).spec_version(),
            final(self).spec_ec_level() == old(self).spec_ec_level(),
            final(self).spec_width() == old(self).spec_width(),
            final(self).grid() =~= format_info_pattern(
                old(self).grid(),
                old(self).spec_width(),
                old(self).spec_version(),
                0,
            ),
    {
        self.draw_format_info_patterns_with_number(0);
    }

    /// Draws the version-information blocks of Normal versions 7 and up;
    /// smaller symbols carry none.
    pub fn draw_version_info_patterns(&mut self)
        requires
            old(self).wf(),
        ensures
            final(self).wf(),
            final(self).spec_version() == old(self).spec_version(),
            final(self).spec_ec_level() == old(self).spec_ec_level(),
            final(self).spec_width() == old(self).spec_width(),
            final(self).grid() =~= version_info_patterns(
                old(self).grid(),
                old(self).spec_width(),
                old(self).spec_version(),
            ),
    {
        match self.version() {
            Version::Micro(_) => {
                return ;
            },
            Version::Normal(a) => {
                if a <= 6 {
                    return ;
                }
                let number = crate::tables::version_info(a);
                let bl = crate::tables::version_info_coords_bl();
                self.draw_number(number, 18, Color::Dark, Color::Light, &bl);
                let tr = crate::tables::version_info_coords_tr();
                self.draw_number(number, 18, Color::Dark, Color::Light, &tr);
            },
        }
    }

    /// Draws all functional patterns, before data placement: finder,
    /// alignment, reserved format region, timing, version information.
    pub fn draw_all_functional_patterns(&mut self)
        requires
            old(self).wf(),
        ensures
            final(self).wf(),
            final(self).spec_version() == old(self).spec_version(),
            final(self).spec_ec_level() == old(self).spec_ec_level(),
            final(self).spec_width() == old(self).spec_width(),
            final(self).grid() =~= functional_patterns(
                old(self).grid(),
                old(self).spec_width(),
                old(self).spec_version(),
            ),
    {
        self.draw_finder_patterns();
        self.draw_alignment_patterns();
        self.draw_reserved_format_info_patterns();
        self.draw_timing_patterns();
        self.draw_version_info_patterns();
    }
}


/// No drawing phase ever clears a masked module: each phase writes
/// masked modules or leaves cells alone.
pub proof fn lemma_finder_box_monotone(g: Seq<Module>, w: int, x: int, y: int, idx: int)
    requires
        0 <= idx < g.len(),
        g[idx].is_masked(),
    ensures
        finder_box(g, w, x, y)[idx].is_masked(),
{
}

pub proof fn lemma_alignment_box_monotone(g: Seq<Module>, w: int, x: int, y: int, idx: int)
    requires
        0 <= idx < g.len(),
        g[idx].is_masked(),
    ensures
        alignment_box(g, w, x, y)[idx].is_masked(),
{
}

pub proof fn lemma_alignment_box_len(g: Seq<Module>, w: int, x: int, y: int)
    ensures
        alignment_box(g, w, x, y).len() == g.len(),
{
}

pub proof fn lemma_alignment_column_monotone(
    g: Seq<Module>,
    w: int,
    x: i16,
    pos: Seq<i16>,
    m: int,
    idx: int,
)
    requires
        0 <= idx < g.len(),
        g[idx].is_masked(),
    ensures
        alignment_column(g, w, x, pos, m).len() == g.len(),
        alignment_column(g, w, x, pos, m)[idx].is_masked(),
    decreases m,
{
    if m > 0 {
        lemma_alignment_column_monotone(g, w, x, pos, m - 1, idx);
        lemma_alignment_box_monotone(alignment_column(g, w, x, pos, m - 1), w, x as int, pos[m
            - 1] as int, idx);
        lemma_alignment_box_len(alignment_column(g, w, x, pos, m - 1), w, x as int, pos[m
            - 1] as int);
    }
}

pub proof fn lemma_alignment_product_monotone(
    g: Seq<Module>,
    w: int,
    pos: Seq<i16>,
    n: int,
    idx: int,
)
    requires
        0 <= idx < g.len(),
        g[idx].is_masked(),
    ensures
        alignment_product(g, w, pos, n).len() == g.len(),
        alignment_product(g, w, pos, n)[idx].is_masked(),
    decreases n,
{
    if n > 0 {
        lemma_alignment_product_monotone(g, w, pos, n - 1, idx);
        lemma_alignment_column_monotone(alignment_product(g, w, pos, n - 1), w, pos[n - 1], pos,
            pos.len() as int, idx);
    }
}

pub proof fn lemma_line_pattern_monotone(
    g: Seq<Module>,
    w: int,
    x1: int,
    y1: int,
    x2: int,
    y2: int,
    ce: Color,
    co: Color,
    idx: int,
)
    requires
        0 <= idx < g.len(),
        g[idx].is_masked(),
    ensures
        line_pattern(g, w, x1, y1, x2, y2, ce, co)[idx].is_masked(),
{
}

pub proof fn lemma_number_pattern_monotone(
    g: Seq<Module>,
    w: int,
    number: u32,
    bits: u32,
    on: Color,
    off: Color,
    coords: Seq<(i16, i16)>,
    n: int,
    idx: int,
)
    requires
        11 <= w <= 177,
        g.len() == w * w,
        forall|k: int| 0 <= k < coords.len() ==> -w <= (#[trigger] coords[k]).0 < w && -w
            <= coords[k].1 < w,
        n <= coords.len(),
        0 <= idx < g.len(),
        g[idx].is_masked(),
    ensures
        number_pattern_upto(g, w, number, bits, on, off, coords, n).len() == g.len(),
        number_pattern_upto(g, w, number, bits, on, off, coords, n)[idx].is_masked(),
    decreases n,
{
    if n > 0 {
        lemma_number_pattern_monotone(g, w, number, bits, on, off, coords, n - 1, idx);
        crate::canvas::lemma_flat_index_bounds(coords[n - 1].0 as int, coords[n - 1].1 as int, w);
    }
}

/// Plotting a number masks the module at every listed coordinate.
pub proof fn lemma_number_pattern_masks_coords(
    g: Seq<Module>,
    w: int,
    number: u32,
    bits: u32,
    on: Color,
    off: Color,
    coords: Seq<(i16, i16)>,
    n: int,
    k: int,
)
    requires
        11 <= w <= 177,
        g.len() == w * w,
        forall|j: int| 0 <= j < coords.len() ==> -w <= (#[trigger] coords[j]).0 < w && -w
            <= coords[j].1 < w,
        n <= coords.len(),
        0 <= k < n,
    ensures
        number_pattern_upto(g, w, number, bits, on, off, coords, n)[flat_index(
            coords[k].0 as int,
            coords[k].1 as int,
            w,
        )].is_masked(),
    decreases n,
{
    crate::canvas::lemma_flat_index_bounds(coords[n - 1].0 as int, coords[n - 1].1 as int, w);
    crate::canvas::lemma_flat_index_bounds(coords[k].0 as int, coords[k].1 as int, w);
    if k == n - 1 {
        lemma_number_pattern_all_len(g, w, number, bits, on, off, coords, n - 1);
    } else {
        lemma_number_pattern_masks_coords(g, w, number, bits, on, off, coords, n - 1, k);
        lemma_number_pattern_all_len(g, w, number, bits, on, off, coords, n - 1);
        let pre = number_pattern_upto(g, w, number, bits, on, off, coords, n - 1);
        lemma_number_pattern_monotone(pre, w, number, bits, on, off, coords, 0, flat_index(
            coords[k].0 as int, coords[k].1 as int, w));
    }
}

/// Plotting a number keeps the length of the grid.
pub proof fn lemma_number_pattern_all_len(
    g: Seq<Module>,
    w: int,
    number: u32,
    bits: u32,
    on: Color,
    off: Color,
    coords: Seq<(i16, i16)>,
    n: int,
)
    requires
        11 <= w <= 177,
        g.len() == w * w,
        forall|j: int| 0 <= j < coords.len() ==> -w <= (#[trigger] coords[j]).0 < w && -w
            <= coords[j].1 < w,
        n <= coords.len(),
    ensures
        number_pattern_upto(g, w, number, bits, on, off, coords, n).len() == g.len(),
    decreases n,
{
    if n > 0 {
        lemma_number_pattern_all_len(g, w, number, bits, on, off, coords, n - 1);
        crate::canvas::lemma_flat_index_bounds(coords[n - 1].0 as int, coords[n - 1].1 as int, w);
    }
}


/// The grid of a freshly constructed canvas: every module unmasked and
/// light.
pub open spec fn blank_grid(w: int) -> Seq<Module> {
    Seq::new((w * w) as nat, |i: int| Module::Unmasked(Color::Light))
}

/// A cell inside a finder box comes out masked.
pub proof fn lemma_cell_in_finder_box(g: Seq<Module>, w: int, bx: int, by: int, xx: int, yy: int)
    requires
        11 <= w <= 177,
        g.len() == w * w,
        0 <= xx < w,
        0 <= yy < w,
        wrap_coord(bx, w) + finder_lo(bx) <= xx <= wrap_coord(bx, w) + finder_hi(bx),
        wrap_coord(by, w) + finder_lo(by) <= yy <= wrap_coord(by, w) + finder_hi(by),
    ensures
        finder_box(g, w, bx, by)[yy * w + xx].is_masked(),
{
    let idx = yy * w + xx;
    assert(0 <= yy * w + xx && yy * w + xx < w * w) by (nonlinear_arith)
        requires 0 <= xx < w, 0 <= yy < w;
    lemma_row_major(yy, xx, w);
}

/// A cell of a finder box keeps its position under later boxes: a cell
/// outside a finder box keeps its module.
pub proof fn lemma_cell_outside_finder_box(
    g: Seq<Module>,
    w: int,
    bx: int,
    by: int,
    xx: int,
    yy: int,
)
    requires
        11 <= w <= 177,
        g.len() == w * w,
        0 <= xx < w,
        0 <= yy < w,
        !(wrap_coord(bx, w) + finder_lo(bx) <= xx <= wrap_coord(bx, w) + finder_hi(bx)
            && wrap_coord(by, w) + finder_lo(by) <= yy <= wrap_coord(by, w) + finder_hi(by)),
    ensures
        finder_box(g, w, bx, by)[yy * w + xx] == g[yy * w + xx],
{
    let idx = yy * w + xx;
    assert(0 <= yy * w + xx && yy * w + xx < w * w) by (nonlinear_arith)
        requires 0 <= xx < w, 0 <= yy < w;
    lemma_row_major(yy, xx, w);
}

/// A cell inside an alignment box whose pivot is still unmasked comes
/// out masked.
pub proof fn lemma_cell_in_alignment_box(
    g: Seq<Module>,
    w: int,
    bx: int,
    by: int,
    xx: int,
    yy: int,
)
    requires
        11 <= w <= 177,
        g.len() == w * w,
        0 <= xx < w,
        0 <= yy < w,
        wrap_coord(bx, w) - 2 <= xx <= wrap_coord(bx, w) + 2,
        wrap_coord(by, w) - 2 <= yy <= wrap_coord(by, w) + 2,
        0 <= wrap_coord(bx, w) < w,
        0 <= wrap_coord(by, w) < w,
        !g[wrap_coord(by, w) * w + wrap_coord(bx, w)].is_masked(),
    ensures
        alignment_box(g, w, bx, by)[yy * w + xx].is_masked(),
{
    let idx = yy * w + xx;
    assert(0 <= yy * w + xx && yy * w + xx < w * w) by (nonlinear_arith)
        requires 0 <= xx < w, 0 <= yy < w;
    lemma_row_major(yy, xx, w);
}

/// A cell on a horizontal or vertical line segment comes out masked.
pub proof fn lemma_cell_on_line(
    g: Seq<Module>,
    w: int,
    x1: int,
    y1: int,
    x2: int,
    y2: int,
    ce: Color,
    co: Color,
    xx: int,
    yy: int,
)
    requires
        11 <= w <= 177,
        g.len() == w * w,
        0 <= xx < w,
        0 <= yy < w,
        (y1 == y2 && yy == y1 && x1 <= xx <= x2) || (y1 != y2 && xx == x1 && y1 <= yy <= y2),
    ensures
        line_pattern(g, w, x1, y1, x2, y2, ce, co)[yy * w + xx].is_masked(),
{
    let idx = yy * w + xx;
    assert(0 <= yy * w + xx && yy * w + xx < w * w) by (nonlinear_arith)
        requires 0 <= xx < w, 0 <= yy < w;
    lemma_row_major(yy, xx, w);
}


pub proof fn lemma_alignment_column_len(g: Seq<Module>, w: int, x: i16, pos: Seq<i16>, m: int)
    ensures
        alignment_column(g, w, x, pos, m).len() == g.len(),
    decreases m,
{
    if m > 0 {
        lemma_alignment_column_len(g, w, x, pos, m - 1);
        lemma_alignment_box_len(alignment_column(g, w, x, pos, m - 1), w, x as int, pos[m
            - 1] as int);
    }
}

pub proof fn lemma_alignment_product_len(g: Seq<Module>, w: int, pos: Seq<i16>, n: int)
    ensures
        alignment_product(g, w, pos, n).len() == g.len(),
    decreases n,
{
    if n > 0 {
        lemma_alignment_product_len(g, w, pos, n - 1);
        lemma_alignment_column_len(alignment_product(g, w, pos, n - 1), w, pos[n - 1], pos,
            pos.len() as int);
    }
}

pub proof fn lemma_alignment_patterns_len(g: Seq<Module>, w: int, version: Version)
    ensures
        alignment_patterns(g, w, version).len() == g.len(),
{
    match version {
        Version::Micro(_) => {},
        Version::Normal(a) => {
            if a == 1 {
            } else if 2 <= a <= 6 {
                lemma_alignment_box_len(g, w, -7, -7);
            } else {
                lemma_alignment_product_len(g, w, crate::tables::spec_alignment_positions(
                    a as int), crate::tables::spec_alignment_positions(a as int).len() as int);
            }
        },
    }
}


/// A finder box masks no cell outside itself.
pub proof fn lemma_finder_box_masked_bound(
    g: Seq<Module>,
    w: int,
    bx: int,
    by: int,
    xx: int,
    yy: int,
)
    requires
        11 <= w <= 177,
        g.len() == w * w,
        0 <= xx < w,
        0 <= yy < w,
        finder_box(g, w, bx, by)[yy * w + xx].is_masked(),
    ensures
        g[yy * w + xx].is_masked() || (wrap_coord(bx, w) + finder_lo(bx) <= xx <= wrap_coord(bx,
            w) + finder_hi(bx) && wrap_coord(by, w) + finder_lo(by) <= yy <= wrap_coord(by, w)
            + finder_hi(by)),
{
    assert(0 <= yy * w + xx && yy * w + xx < w * w) by (nonlinear_arith)
        requires 0 <= xx < w, 0 <= yy < w;
    lemma_row_major(yy, xx, w);
}

/// An alignment box masks no cell outside itself.
pub proof fn lemma_alignment_box_masked_bound(
    g: Seq<Module>,
    w: int,
    bx: int,
    by: int,
    xx: int,
    yy: int,
)
    requires
        11 <= w <= 177,
        g.len() == w * w,
        0 <= xx < w,
        0 <= yy < w,
        alignment_box(g, w, bx, by)[yy * w + xx].is_masked(),
    ensures
        g[yy * w + xx].is_masked() || (wrap_coord(bx, w) - 2 <= xx <= wrap_coord(bx, w) + 2
            && wrap_coord(by, w) - 2 <= yy <= wrap_coord(by, w) + 2),
{
    assert(0 <= yy * w + xx && yy * w + xx < w * w) by (nonlinear_arith)
        requires 0 <= xx < w, 0 <= yy < w;
    lemma_row_major(yy, xx, w);
}

/// A column of alignment draws masks only cells within two modules of
/// one of its centers.
pub proof fn lemma_alignment_column_masked_bound(
    g: Seq<Module>,
    w: int,
    x: i16,
    pos: Seq<i16>,
    m: int,
    xx: int,
    yy: int,
)
    requires
        11 <= w <= 177,
        g.len() == w * w,
        0 <= xx < w,
        0 <= yy < w,
        0 <= x,
        forall|k: int| 0 <= k < pos.len() ==> 0 <= #[trigger] pos[k],
        0 <= m <= pos.len(),
        alignment_column(g, w, x, pos, m)[yy * w + xx].is_masked(),
    ensures
        g[yy * w + xx].is_masked() || exists|j: int| 0 <= j < m && x - 2 <= xx <= x + 2 && -2
            <= #[trigger] pos[j] - yy <= 2,
    decreases m,
{
    if m > 0 {
        lemma_alignment_column_len(g, w, x, pos, m - 1);
        lemma_alignment_box_masked_bound(alignment_column(g, w, x, pos, m - 1), w, x as int, pos[m
            - 1] as int, xx, yy);
        if alignment_column(g, w, x, pos, m - 1)[yy * w + xx].is_masked() {
            lemma_alignment_column_masked_bound(g, w, x, pos, m - 1, xx, yy);
        } else {
            assert(wrap_coord(x as int, w) == x as int);
            assert(wrap_coord(pos[m - 1] as int, w) == pos[m - 1] as int);
        }
    }
}

/// The alignment product masks only cells within two modules of one of
/// its center pairs.
pub proof fn lemma_alignment_product_masked_bound(
    g: Seq<Module>,
    w: int,
    pos: Seq<i16>,
    n: int,
    xx: int,
    yy: int,
)
    requires
        11 <= w <= 177,
        g.len() == w * w,
        0 <= xx < w,
        0 <= yy < w,
        forall|k: int| 0 <= k < pos.len() ==> 0 <= #[trigger] pos[k],
        0 <= n <= pos.len(),
        alignment_product(g, w, pos, n)[yy * w + xx].is_masked(),
    ensures
        g[yy * w + xx].is_masked() || exists|i: int, j: int| 0 <= i < n && 0 <= j < pos.len()
            && -2 <= #[trigger] pos[i] - xx <= 2 && -2 <= #[trigger] pos[j] - yy <= 2,
    decreases n,
{
    if n > 0 {
        lemma_alignment_product_len(g, w, pos, n - 1);
        lemma_alignment_column_masked_bound(alignment_product(g, w, pos, n - 1), w, pos[n - 1],
            pos, pos.len() as int, xx, yy);
        if alignment_product(g, w, pos, n - 1)[yy * w + xx].is_masked() {
            lemma_alignment_product_masked_bound(g, w, pos, n - 1, xx, yy);
        }
    }
}

/// A masked cell stays masked while the rest of a column is drawn.
pub proof fn lemma_alignment_column_monotone_steps(
    g: Seq<Module>,
    w: int,
    x: i16,
    pos: Seq<i16>,
    m1: int,
    m2: int,
    idx: int,
)
    requires
        0 <= idx < g.len(),
        0 <= m1 <= m2,
        alignment_column(g, w, x, pos, m1)[idx].is_masked(),
    ensures
        alignment_column(g, w, x, pos, m2)[idx].is_masked(),
    decreases m2 - m1,
{
    if m2 > m1 {
        lemma_alignment_column_monotone_steps(g, w, x, pos, m1, m2 - 1, idx);
        lemma_alignment_column_len(g, w, x, pos, m2 - 1);
        lemma_alignment_box_monotone(alignment_column(g, w, x, pos, m2 - 1), w, x as int, pos[m2
            - 1] as int, idx);
    }
}

/// A masked cell stays masked while the rest of the product is drawn.
pub proof fn lemma_alignment_product_monotone_steps(
    g: Seq<Module>,
    w: int,
    pos: Seq<i16>,
    n1: int,
    n2: int,
    idx: int,
)
    requires
        0 <= idx < g.len(),
        0 <= n1 <= n2,
        alignment_product(g, w, pos, n1)[idx].is_masked(),
    ensures
        alignment_product(g, w, pos, n2)[idx].is_masked(),
    decreases n2 - n1,
{
    if n2 > n1 {
        lemma_alignment_product_monotone_steps(g, w, pos, n1, n2 - 1, idx);
        lemma_alignment_product_len(g, w, pos, n2 - 1);
        lemma_alignment_column_monotone(alignment_product(g, w, pos, n2 - 1), w, pos[n2 - 1], pos,
            pos.len() as int, idx);
    }
}

} // verus!
