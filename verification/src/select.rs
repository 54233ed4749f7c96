//! Best-mask selection: every admissible mask pattern is applied to a
//! copy of the canvas, scored, and the first pattern with the lowest
//! penalty wins. The chosen canvas is then read out as colors.

use vstd::prelude::*;
use crate::canvas::Canvas;
use crate::mask::{MaskPattern, format_info_word, mask_applied};
use crate::module::Module;
use crate::patterns::format_info_pattern;
use crate::penalty::total_penalty;
use crate::types::{Color, EcLevel, Version};

verus! {

broadcast use crate::canvas::lemma_grid_len, crate::canvas::lemma_wf_dimensions;

/// The patterns a symbol of this version may choose among, in the order
/// the selection tries them.
pub open spec fn admissible_patterns(version: Version) -> Seq<MaskPattern> {
    match version {
        Version::Normal(_) => seq![
            MaskPattern::Checkerboard,
            MaskPattern::HorizontalLines,
            MaskPattern::VerticalLines,
            MaskPattern::DiagonalLines,
            MaskPattern::LargeCheckerboard,
            MaskPattern::Fields,
            MaskPattern::Diamonds,
            MaskPattern::Meadow,
        ],
        Version::Micro(_) => seq![
            MaskPattern::HorizontalLines,
            MaskPattern::LargeCheckerboard,
            MaskPattern::Diamonds,
            MaskPattern::Meadow,
        ],
    }
}

/// What one full mask pass leaves on the grid: the mask applied and the
/// format word of the chosen pattern written over the reserved region.
pub open spec fn mask_pass(
    g: Seq<Module>,
    w: int,
    version: Version,
    ec_level: EcLevel,
    p: MaskPattern,
) -> Seq<Module> {
    format_info_pattern(mask_applied(g, w, p), w, version, format_info_word(version, ec_level, p))
}

/// The penalty of the grid after a full mask pass with pattern `p`.
pub open spec fn pass_score(
    g: Seq<Module>,
    w: int,
    version: Version,
    ec_level: EcLevel,
    p: MaskPattern,
) -> int {
    total_penalty(mask_pass(g, w, version, ec_level, p), w, version)
}

/// The index of the first pattern among the first `n` whose pass scores
/// lowest: a later pattern wins only with a strictly lower score.
pub open spec fn best_index_upto(
    g: Seq<Module>,
    w: int,
    version: Version,
    ec_level: EcLevel,
    pats: Seq<MaskPattern>,
    n: int,
) -> int
    decreases n,
{
    if n <= 1 {
        0
    } else {
        let b = best_index_upto(g, w, version, ec_level, pats, n - 1);
        if pass_score(g, w, version, ec_level, pats[n - 1]) < pass_score(g, w, version, ec_level,
            pats[b]) {
            n - 1
        } else {
            b
        }
    }
}

/// The pattern best-mask selection picks for this canvas.
pub open spec fn best_pattern(g: Seq<Module>, w: int, version: Version, ec_level: EcLevel)
    -> MaskPattern {
    let pats = admissible_patterns(version);
    pats[best_index_upto(g, w, version, ec_level, pats, pats.len() as int)]
}

/// The first best index stays in range and no earlier pattern scores
/// as low.
pub proof fn lemma_best_index_upto(
    g: Seq<Module>,
    w: int,
    version: Version,
    ec_level: EcLevel,
    pats: Seq<MaskPattern>,
    n: int,
)
    requires
        1 <= n,
    ensures
        0 <= best_index_upto(g, w, version, ec_level, pats, n) < n,
        forall|j: int| 0 <= j < n ==> pass_score(g, w, version, ec_level, pats[best_index_upto(g,
            w, version, ec_level, pats, n)]) <= pass_score(g, w, version, ec_level, #[trigger] pats[j]),
        forall|j: int| 0 <= j < best_index_upto(g, w, version, ec_level, pats, n) ==> pass_score(
            g, w, version, ec_level, #[trigger] pats[j]) > pass_score(g, w, version, ec_level,
            pats[best_index_upto(g, w, version, ec_level, pats, n)]),
    decreases n,
{
    if n > 1 {
        lemma_best_index_upto(g, w, version, ec_level, pats, n - 1);
    }
}

/// Builds the list of patterns the version may choose among.
fn admissible_pattern_list(version: Version) -> (r: Vec<MaskPattern>)
    ensures
        r@ == admissible_patterns(version),
        1 <= r@.len() <= 8,
        forall|k: int| 0 <= k < r@.len() ==> (#[trigger] r@[k]).admissible(version),
{
    match version {
        Version::Normal(_) => {
            let r = vec![
                MaskPattern::Checkerboard,
                MaskPattern::HorizontalLines,
                MaskPattern::VerticalLines,
                MaskPattern::DiagonalLines,
                MaskPattern::LargeCheckerboard,
                MaskPattern::Fields,
                MaskPattern::Diamonds,
                MaskPattern::Meadow,
            ];
            proof {
                assert(r@ =~= admissible_patterns(version));
            }
            r
        },
        Version::Micro(_) => {
            let r = vec![
                MaskPattern::HorizontalLines,
                MaskPattern::LargeCheckerboard,
                MaskPattern::Diamonds,
                MaskPattern::Meadow,
            ];
            proof {
                assert(r@ =~= admissible_patterns(version));
                assert forall|k: int| 0 <= k < r@.len() implies (#[trigger] r@[
                    k]).admissible(version) by {
                    if k == 0 {
                        assert(r@[k] == MaskPattern::HorizontalLines);
                    } else if k == 1 {
                        assert(r@[k] == MaskPattern::LargeCheckerboard);
                    } else if k == 2 {
                        assert(r@[k] == MaskPattern::Diamonds);
                    } else {
                        assert(r@[k] == MaskPattern::Meadow);
                    }
                }
            }
            r
        },
    }
}

impl Canvas {
    /// Applies every admissible mask to a copy of the canvas and returns
    /// the copy whose penalty is lowest; among equal scores the earliest
    /// pattern wins, so the choice is a function of the canvas alone.
    pub fn apply_best_mask(&self) -> (r: Canvas)
        requires
            self.wf(),
        ensures
            r.wf(),
            r.spec_version() == self.spec_version(),
            r.spec_ec_level() == self.spec_ec_level(),
            r.spec_width() == self.spec_width(),
            r.grid() == mask_pass(
                self.grid(),
                self.spec_width(),
                self.spec_version(),
                self.spec_ec_level(),
                best_pattern(self.grid(), self.spec_width(), self.spec_version(),
                    self.spec_ec_level()),
            ),
    {
        let ghost g0 = self.grid();
        let ghost w = self.spec_width();
        let ghost version = self.spec_version();
        let ghost ec_level = self.spec_ec_level();
        let patterns = admissible_pattern_list(self.version());
        let ghost pats = patterns@;
        let mut best = self.clone();
        best.apply_mask(patterns[0]);
        let mut best_score = best.compute_total_penalty_scores();
        let mut k: usize = 1;
        while k < patterns.len()
            invariant
                self.wf(),
                g0 == self.grid(),
                w == self.spec_width(),
                version == self.spec_version(),
                ec_level == self.spec_ec_level(),
                pats == patterns@,
                pats == admissible_patterns(version),
                forall|m: int| 0 <= m < pats.len() ==> (#[trigger] pats[m]).admissible(version),
                1 <= k <= pats.len(),
                best.wf(),
                best.spec_version() == version,
                best.spec_ec_level() == ec_level,
                best.spec_width() == w,
                best.grid() == mask_pass(g0, w, version, ec_level, pats[best_index_upto(g0, w,
                    version, ec_level, pats, k as int)]),
                best_score == pass_score(g0, w, version, ec_level, pats[best_index_upto(g0, w,
                    version, ec_level, pats, k as int)]),
            decreases patterns@.len() - k,
        {
            let mut candidate = self.clone();
            candidate.apply_mask(patterns[k]);
            let score = candidate.compute_total_penalty_scores();
            if score < best_score {
                best = candidate;
                best_score = score;
            }
            k = k + 1;
        }
        best
    }

    /// Reads the canvas out as a sequence of colors in row-major order.
    pub fn colors(&self) -> (r: Vec<Color>)
        requires
            self.wf(),
        ensures
            r@ == Seq::new((self.spec_width() * self.spec_width()) as nat, |i: int|
                self.grid()[i].color()),
    {
        let ghost w_int = self.spec_width();
        let w = self.width();
        let mut r: Vec<Color> = Vec::new();
        let mut y: i16 = 0;
        while y < w
            invariant
                self.wf(),
                w == w_int,
                w_int == self.spec_width(),
                0 <= y <= w,
                r@ =~= Seq::new(((y as int) * w_int) as nat, |i: int| self.grid()[i].color()),
            decreases w - y,
        {
            let mut x: i16 = 0;
            while x < w
                invariant
                    self.wf(),
                    w == w_int,
                    w_int == self.spec_width(),
                    0 <= y < w,
                    0 <= x <= w,
                    r@ =~= Seq::new(((y as int) * w_int + x as int) as nat, |i: int|
                        self.grid()[i].color()),
                decreases w - x,
            {
                proof {
                    crate::patterns::lemma_row_major(y as int, x as int, w_int);
                    assert(0 <= (y as int) * w_int + x && (y as int) * w_int + x < w_int * w_int)
                        by (nonlinear_arith)
                        requires 0 <= x < w_int, 0 <= y < w_int;
                }
                let m = self.get(x, y);
                let color = if m.is_dark() {
                    Color::Dark
                } else {
                    Color::Light
                };
                r.push(color);
                x = x + 1;
            }
            y = y + 1;
            proof {
                assert(((y as int) - 1) * w_int + w_int == (y as int) * w_int)
                    by (nonlinear_arith);
            }
        }
        proof {
            assert((w_int) * w_int == (w as int) * w_int);
        }
        r
    }
}


/// Best-mask selection is deterministic: on identical grids with the
/// same version and level it picks the same pattern and produces the
/// same output bits.
pub proof fn lemma_best_mask_deterministic(
    g1: Seq<Module>,
    g2: Seq<Module>,
    w: int,
    version: Version,
    ec_level: EcLevel,
)
    requires
        g1 == g2,
    ensures
        best_pattern(g1, w, version, ec_level) == best_pattern(g2, w, version, ec_level),
        mask_pass(g1, w, version, ec_level, best_pattern(g1, w, version, ec_level)) == mask_pass(
            g2,
            w,
            version,
            ec_level,
            best_pattern(g2, w, version, ec_level),
        ),
{
}

/// A Micro symbol only ever selects one of the four patterns its format
/// word can record.
pub proof fn lemma_micro_selects_micro_pattern(g: Seq<Module>, w: int, v: i16, ec_level: EcLevel)
    ensures
        best_pattern(g, w, Version::Micro(v), ec_level) == MaskPattern::HorizontalLines
            || best_pattern(g, w, Version::Micro(v), ec_level) == MaskPattern::LargeCheckerboard
            || best_pattern(g, w, Version::Micro(v), ec_level) == MaskPattern::Diamonds
            || best_pattern(g, w, Version::Micro(v), ec_level) == MaskPattern::Meadow,
{
    let version = Version::Micro(v);
    let pats = admissible_patterns(version);
    lemma_best_index_upto(g, w, version, ec_level, pats, pats.len() as int);
    let b = best_index_upto(g, w, version, ec_level, pats, pats.len() as int);
    assert(0 <= b < 4);
    if b == 0 {
        assert(pats[b] == MaskPattern::HorizontalLines);
    } else if b == 1 {
        assert(pats[b] == MaskPattern::LargeCheckerboard);
    } else if b == 2 {
        assert(pats[b] == MaskPattern::Diamonds);
    } else {
        assert(pats[b] == MaskPattern::Meadow);
    }
}


/// Plotting a number over an all-masked grid keeps every module masked.
proof fn lemma_number_pattern_all_masked(
    g: Seq<Module>,
    w: int,
    number: u32,
    bits: u32,
    on: Color,
    off: Color,
    coords: Seq<(i16, i16)>,
    n: int,
)
    requires
        11 <= w <= 177,
        g.len() == w * w,
        forall|k: int| 0 <= k < coords.len() ==> -w <= (#[trigger] coords[k]).0 < w && -w
            <= coords[k].1 < w,
        n <= coords.len(),
        forall|idx: int| 0 <= idx < g.len() ==> (#[trigger] g[idx]).is_masked(),
    ensures
        crate::patterns::number_pattern_upto(g, w, number, bits, on, off, coords, n).len()
            == g.len(),
        forall|idx: int| 0 <= idx < g.len()
            ==> (#[trigger] crate::patterns::number_pattern_upto(g, w, number, bits, on, off,
            coords, n)[idx]).is_masked(),
    decreases n,
{
    if n > 0 {
        lemma_number_pattern_all_masked(g, w, number, bits, on, off, coords, n - 1);
        crate::canvas::lemma_flat_index_bounds(coords[n - 1].0 as int, coords[n - 1].1 as int, w);
    }
}

/// After a full mask pass every module of the canvas is masked: the mask
/// locks every data module and the format writer plots masked modules.
pub proof fn lemma_mask_pass_all_masked(
    g: Seq<Module>,
    w: int,
    version: Version,
    ec_level: EcLevel,
    p: MaskPattern,
)
    requires
        11 <= w <= 177,
        g.len() == w * w,
    ensures
        mask_pass(g, w, version, ec_level, p).len() == g.len(),
        forall|idx: int| 0 <= idx < g.len() ==> (#[trigger] mask_pass(g, w, version, ec_level,
            p)[idx]).is_masked(),
{
    let m = mask_applied(g, w, p);
    assert(forall|idx: int| 0 <= idx < m.len() ==> (#[trigger] m[idx]).is_masked());
    let word = format_info_word(version, ec_level, p);
    crate::tables::lemma_info_coords_bounds();
    match version {
        Version::Micro(_) => {
            let coords = crate::tables::spec_format_info_coords_micro_qr();
            lemma_number_pattern_all_masked(m, w, word as u32, 15, Color::Dark, Color::Light,
                coords, coords.len() as int);
        },
        Version::Normal(_) => {
            let main = crate::tables::spec_format_info_coords_qr_main();
            lemma_number_pattern_all_masked(m, w, word as u32, 15, Color::Dark, Color::Light,
                main, main.len() as int);
            let after_main = crate::patterns::number_pattern(m, w, word as u32, 15, Color::Dark,
                Color::Light, main);
            let side = crate::tables::spec_format_info_coords_qr_side();
            lemma_number_pattern_all_masked(after_main, w, word as u32, 15, Color::Dark,
                Color::Light, side, side.len() as int);
            crate::canvas::lemma_flat_index_bounds(8, -8, w);
        },
    }
}

/// Every coordinate that the closed-form functional test names carries a
/// masked module on the finished canvas; indeed the whole canvas is
/// masked once the best mask has been applied.
pub proof fn lemma_functional_coordinates_masked(
    g: Seq<Module>,
    version: Version,
    ec_level: EcLevel,
    p: MaskPattern,
    x: int,
    y: int,
)
    requires
        version.valid(),
        g.len() == version.width_spec() * version.width_spec(),
        -version.width_spec() <= x < version.width_spec(),
        -version.width_spec() <= y < version.width_spec(),
        crate::functional::is_functional_spec(version, x, y),
    ensures
        crate::canvas::grid_at(
            mask_pass(g, version.width_spec(), version, ec_level, p),
            version.width_spec(),
            x,
            y,
        ).is_masked(),
{
    let w = version.width_spec();
    lemma_mask_pass_all_masked(g, w, version, ec_level, p);
    crate::canvas::lemma_flat_index_bounds(x, y, w);
}

} // verus!
