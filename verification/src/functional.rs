//! A closed-form test for functional modules: which coordinates of a
//! symbol belong to a functional pattern, answered from the version
//! alone, without a canvas.

use vstd::prelude::*;
use crate::canvas::{grid_at, wrap_coord};
use crate::module::Module;
use crate::patterns::{alignment_column, alignment_patterns, alignment_product, blank_grid,
    finder_box, finder_patterns, format_info_pattern, functional_patterns, timing_patterns,
    version_info_patterns};
use crate::tables::spec_alignment_positions;
use crate::types::{Color, Version};

verus! {

broadcast use crate::canvas::lemma_grid_len, crate::canvas::lemma_wf_dimensions;

/// Whether (x, y) lies within Chebyshev distance two of the alignment
/// center (pos[i], pos[j]) for some index pair that is not one of the
/// three corners where a finder pattern stands instead.
pub open spec fn near_alignment_center(pos: Seq<i16>, x: int, y: int) -> bool {
    exists|i: int, j: int|
        0 <= i < pos.len() && 0 <= j < pos.len() && !((i == 0 && (j == 0 || j == pos.len() - 1))
            || (i == pos.len() - 1 && j == 0)) && -2 <= #[trigger] pos[i] - x <= 2 && -2
            <= #[trigger] pos[j] - y <= 2
}

/// Whether the module at (x, y) belongs to a functional pattern of the
/// version: the timing lines, the finder patterns with their separators
/// and format regions, and the alignment and version-information
/// regions the version carries. Negative coordinates wrap around.
pub open spec fn is_functional_spec(version: Version, x: int, y: int) -> bool {
    let w = version.width_spec();
    let xx = wrap_coord(x, w);
    let yy = wrap_coord(y, w);
    match version {
        Version::Micro(_) => xx == 0 || yy == 0 || (xx < 9 && yy < 9),
        Version::Normal(a) => {
            if xx == 6 || yy == 6 || (xx < 9 && yy < 9) || (xx < 9 && yy >= w - 8) || (xx >= w - 8
                && yy < 9) {
                true
            } else if a == 1 {
                false
            } else if 2 <= a <= 6 {
                -2 <= w - 7 - xx <= 2 && -2 <= w - 7 - yy <= 2
            } else {
                near_alignment_center(spec_alignment_positions(a as int), xx, yy)
            }
        },
    }
}

/// Tells whether the module at the given coordinates of a symbol of this
/// version is a functional module. Negative coordinates wrap around.
pub fn is_functional(version: Version, width: i16, x: i16, y: i16) -> (r: bool)
    requires
        version.valid(),
        width == version.width_spec(),
        -width <= x < width,
        -width <= y < width,
    ensures
        r == is_functional_spec(version, x as int, y as int),
{
    let xx = if x < 0 {
        x + width
    } else {
        x
    };
    let yy = if y < 0 {
        y + width
    } else {
        y
    };
    match version {
        Version::Micro(_) => xx == 0 || yy == 0 || (xx < 9 && yy < 9),
        Version::Normal(a) => {
            let non_alignment_test = xx == 6 || yy == 6 || (xx < 9 && yy < 9) || (xx < 9 && yy
                >= width - 8) || (xx >= width - 8 && yy < 9);
            if non_alignment_test {
                true
            } else if a == 1 {
                false
            } else if 2 <= a && a <= 6 {
                let dx = width - 7 - xx;
                let dy = width - 7 - yy;
                -2 <= dx && dx <= 2 && -2 <= dy && dy <= 2
            } else {
                let positions = crate::tables::alignment_positions(a);
                let ghost pos = positions@;
                let n = positions.len();
                let last = n - 1;
                let mut i: usize = 0;
                while i < n
                    invariant
                        version == Version::Normal(a),
                        7 <= a <= 40,
                        width == version.width_spec(),
                        xx == wrap_coord(x as int, width as int),
                        yy == wrap_coord(y as int, width as int),
                        pos == positions@,
                        pos == spec_alignment_positions(a as int),
                        n == pos.len(),
                        3 <= n <= 7,
                        last == n - 1,
                        i <= n,
                        0 <= xx < width,
                        0 <= yy < width,
                        forall|k: int| 0 <= k < pos.len() ==> 6 <= #[trigger] pos[k] <= 4 * a
                            + 10,
                        forall|i2: int, j2: int|
                            0 <= i2 < i && 0 <= j2 < pos.len() && !((i2 == 0 && (j2 == 0 || j2
                                == pos.len() - 1)) || (i2 == pos.len() - 1 && j2 == 0)) ==> !(-2
                                <= #[trigger] pos[i2] - xx <= 2 && -2 <= #[trigger] pos[j2] - yy
                                <= 2),
                    decreases n - i,
                {
                    let align_x = positions[i];
                    let mut j: usize = 0;
                    while j < n
                        invariant
                            version == Version::Normal(a),
                            7 <= a <= 40,
                            width == version.width_spec(),
                            xx == wrap_coord(x as int, width as int),
                            yy == wrap_coord(y as int, width as int),
                            pos == positions@,
                            pos == spec_alignment_positions(a as int),
                            n == pos.len(),
                            3 <= n <= 7,
                            last == n - 1,
                            i < n,
                            j <= n,
                            align_x == pos[i as int],
                            0 <= xx < width,
                            0 <= yy < width,
                            forall|k: int| 0 <= k < pos.len() ==> 6 <= #[trigger] pos[k] <= 4 * a
                                + 10,
                            forall|i2: int, j2: int|
                                0 <= i2 < i && 0 <= j2 < pos.len() && !((i2 == 0 && (j2 == 0 || j2
                                    == pos.len() - 1)) || (i2 == pos.len() - 1 && j2 == 0)) ==> !(
                                -2 <= #[trigger] pos[i2] - xx <= 2 && -2 <= #[trigger] pos[j2]
                                - yy <= 2),
                            forall|j2: int|
                                0 <= j2 < j && !((i == 0 && (j2 == 0 || j2 == pos.len() - 1)) || (
                                i == pos.len() - 1 && j2 == 0)) ==> !(-2 <= pos[i as int] - xx
                                <= 2 && -2 <= #[trigger] pos[j2] - yy <= 2),
                        decreases n - j,
                    {
                        let skip = (i == 0 && (j == 0 || j == last)) || (i == last && j == 0);
                        if !skip {
                            let align_y = positions[j];
                            let dx = align_x - xx;
                            let dy = align_y - yy;
                            if -2 <= dx && dx <= 2 && -2 <= dy && dy <= 2 {
                                proof {
                                    let gi = i as int;
                                    let gj = j as int;
                                    assert(0 <= gi < pos.len() && 0 <= gj < pos.len() && !((gi
                                        == 0 && (gj == 0 || gj == pos.len() - 1)) || (gi
                                        == pos.len() - 1 && gj == 0)) && -2 <= pos[gi] - xx <= 2
                                        && -2 <= pos[gj] - yy <= 2);
                                    assert(near_alignment_center(pos, xx as int, yy as int));
                                }
                                return true;
                            }
                        }
                        j = j + 1;
                    }
                    i = i + 1;
                }
                false
            }
        },
    }
}


/// A masked module stays masked through the alignment pass.
proof fn chain_alignment(g: Seq<Module>, w: int, version: Version, idx: int)
    requires
        0 <= idx < g.len(),
        g[idx].is_masked(),
    ensures
        alignment_patterns(g, w, version).len() == g.len(),
        alignment_patterns(g, w, version)[idx].is_masked(),
{
    crate::patterns::lemma_alignment_patterns_len(g, w, version);
    match version {
        Version::Micro(_) => {},
        Version::Normal(a) => {
            if a == 1 {
            } else if 2 <= a <= 6 {
                crate::patterns::lemma_alignment_box_monotone(g, w, -7, -7, idx);
            } else {
                crate::patterns::lemma_alignment_product_monotone(g, w,
                    spec_alignment_positions(a as int), spec_alignment_positions(
                    a as int).len() as int, idx);
            }
        },
    }
}

/// A masked module stays masked through the format-information pass.
proof fn chain_format(g: Seq<Module>, w: int, version: Version, fi: u16, idx: int)
    requires
        11 <= w <= 177,
        g.len() == w * w,
        0 <= idx < g.len(),
        g[idx].is_masked(),
    ensures
        format_info_pattern(g, w, version, fi).len() == g.len(),
        format_info_pattern(g, w, version, fi)[idx].is_masked(),
{
    crate::tables::lemma_info_coords_bounds();
    match version {
        Version::Micro(_) => {
            let coords = crate::tables::spec_format_info_coords_micro_qr();
            crate::patterns::lemma_number_pattern_monotone(g, w, fi as u32, 15, Color::Dark,
                Color::Light, coords, coords.len() as int, idx);
        },
        Version::Normal(_) => {
            let main = crate::tables::spec_format_info_coords_qr_main();
            let side = crate::tables::spec_format_info_coords_qr_side();
            crate::patterns::lemma_number_pattern_monotone(g, w, fi as u32, 15, Color::Dark,
                Color::Light, main, main.len() as int, idx);
            let g_main = crate::patterns::number_pattern(g, w, fi as u32, 15, Color::Dark,
                Color::Light, main);
            crate::patterns::lemma_number_pattern_monotone(g_main, w, fi as u32, 15, Color::Dark,
                Color::Light, side, side.len() as int, idx);
            crate::canvas::lemma_flat_index_bounds(8, -8, w);
        },
    }
}

/// A masked module stays masked through the timing pass.
proof fn chain_timing(g: Seq<Module>, w: int, version: Version, idx: int)
    requires
        0 <= idx < g.len(),
        g[idx].is_masked(),
    ensures
        timing_patterns(g, w, version).len() == g.len(),
        timing_patterns(g, w, version)[idx].is_masked(),
{
    match version {
        Version::Micro(_) => {
            let g1 = crate::patterns::line_pattern(g, w, 8, 0, w - 1, 0, Color::Dark,
                Color::Light);
            crate::patterns::lemma_line_pattern_monotone(g, w, 8, 0, w - 1, 0, Color::Dark,
                Color::Light, idx);
            crate::patterns::lemma_line_pattern_monotone(g1, w, 0, 8, 0, w - 1, Color::Dark,
                Color::Light, idx);
        },
        Version::Normal(_) => {
            let g1 = crate::patterns::line_pattern(g, w, 8, 6, w - 9, 6, Color::Dark,
                Color::Light);
            crate::patterns::lemma_line_pattern_monotone(g, w, 8, 6, w - 9, 6, Color::Dark,
                Color::Light, idx);
            crate::patterns::lemma_line_pattern_monotone(g1, w, 6, 8, 6, w - 9, Color::Dark,
                Color::Light, idx);
        },
    }
}

/// A masked module stays masked through the version-information pass.
proof fn chain_version_info(g: Seq<Module>, w: int, version: Version, idx: int)
    requires
        11 <= w <= 177,
        g.len() == w * w,
        0 <= idx < g.len(),
        g[idx].is_masked(),
    ensures
        version_info_patterns(g, w, version).len() == g.len(),
        version_info_patterns(g, w, version)[idx].is_masked(),
{
    crate::tables::lemma_info_coords_bounds();
    match version {
        Version::Micro(_) => {},
        Version::Normal(a) => {
            if a > 6 {
                let number = crate::tables::spec_version_info(a as int);
                let bl = crate::tables::spec_version_info_coords_bl();
                let tr = crate::tables::spec_version_info_coords_tr();
                crate::patterns::lemma_number_pattern_monotone(g, w, number, 18, Color::Dark,
                    Color::Light, bl, bl.len() as int, idx);
                let g_bl = crate::patterns::number_pattern(g, w, number, 18, Color::Dark,
                    Color::Light, bl);
                crate::patterns::lemma_number_pattern_monotone(g_bl, w, number, 18, Color::Dark,
                    Color::Light, tr, tr.len() as int, idx);
            }
        },
    }
}

/// A module masked after the alignment pass stays masked to the end of
/// the functional pass.
proof fn chain_after_alignment(g2: Seq<Module>, w: int, version: Version, idx: int)
    requires
        11 <= w <= 177,
        g2.len() == w * w,
        0 <= idx < g2.len(),
        g2[idx].is_masked(),
    ensures
        version_info_patterns(timing_patterns(format_info_pattern(g2, w, version, 0), w, version),
            w, version).len() == w * w,
        version_info_patterns(timing_patterns(format_info_pattern(g2, w, version, 0), w, version),
            w, version)[idx].is_masked(),
{
    chain_format(g2, w, version, 0, idx);
    let g3 = format_info_pattern(g2, w, version, 0);
    chain_timing(g3, w, version, idx);
    let g4 = timing_patterns(g3, w, version);
    chain_version_info(g4, w, version, idx);
}


/// Which main-list format position covers the cell (xx, yy) of the
/// top-left corner region, when one does.
proof fn lemma_main_format_witness(xx: int, yy: int) -> (k: int)
    requires
        0 <= xx <= 8,
        0 <= yy <= 8,
        xx == 8 || yy == 8,
        !(xx == 6 || yy == 6),
    ensures
        0 <= k < 15,
        crate::tables::spec_format_info_coords_qr_main()[k].0 == xx,
        crate::tables::spec_format_info_coords_qr_main()[k].1 == yy,
{
    let coords = crate::tables::spec_format_info_coords_qr_main();
    if yy == 8 {
        if xx <= 5 {
            xx
        } else {
            assert(xx == 7 || xx == 8);
            if xx == 7 {
                6int
            } else {
                7int
            }
        }
    } else {
        assert(xx == 8);
        if yy == 7 {
            8int
        } else {
            assert(yy <= 5);
            14 - yy
        }
    }
}

/// Which side-list format position covers the cell (xx, yy) of the two
/// far corner regions, when one does.
proof fn lemma_side_format_witness(w: int, xx: int, yy: int) -> (k: int)
    requires
        21 <= w <= 177,
        (xx == 8 && w - 7 <= yy <= w - 1) || (w - 8 <= xx <= w - 1 && yy == 8),
    ensures
        0 <= k < 15,
        wrap_coord(crate::tables::spec_format_info_coords_qr_side()[k].0 as int, w) == xx,
        wrap_coord(crate::tables::spec_format_info_coords_qr_side()[k].1 as int, w) == yy,
{
    let coords = crate::tables::spec_format_info_coords_qr_side();
    if xx == 8 && w - 7 <= yy <= w - 1 {
        let k = w - yy - 1;
        assert(0 <= k < 7);
        assert(coords[k].0 == 8 && coords[k].1 == -(k + 1));
        k
    } else {
        let k = xx - w + 15;
        assert(7 <= k < 15);
        assert(coords[k].0 == k - 15 && coords[k].1 == 8);
        k
    }
}

/// Which position of the Micro format list covers the cell (xx, yy),
/// when one does.
proof fn lemma_micro_format_witness(xx: int, yy: int) -> (k: int)
    requires
        (1 <= xx <= 8 && yy == 8) || (xx == 8 && 1 <= yy <= 7),
    ensures
        0 <= k < 15,
        crate::tables::spec_format_info_coords_micro_qr()[k].0 == xx,
        crate::tables::spec_format_info_coords_micro_qr()[k].1 == yy,
{
    if yy == 8 {
        xx - 1
    } else {
        15 - yy
    }
}

/// After the functional pass on a fresh canvas, the module at every
/// coordinate the closed-form functional test names is masked.
pub proof fn lemma_functional_pass_masks(version: Version, x: int, y: int)
    requires
        version.valid(),
        -version.width_spec() <= x < version.width_spec(),
        -version.width_spec() <= y < version.width_spec(),
        is_functional_spec(version, x, y),
    ensures
        grid_at(
            functional_patterns(blank_grid(version.width_spec()), version.width_spec(), version),
            version.width_spec(),
            x,
            y,
        ).is_masked(),
{
    let w = version.width_spec();
    let xx = wrap_coord(x, w);
    let yy = wrap_coord(y, w);
    let idx = yy * w + xx;
    assert(11 <= w <= 177);
    assert(0 <= yy * w + xx && yy * w + xx < w * w) by (nonlinear_arith)
        requires 0 <= xx < w, 0 <= yy < w;
    let b = blank_grid(w);
    assert(b.len() == w * w);
    let g1 = finder_patterns(b, w, version);
    assert(g1.len() == w * w);
    let g2 = alignment_patterns(g1, w, version);
    crate::patterns::lemma_alignment_patterns_len(g1, w, version);
    crate::tables::lemma_info_coords_bounds();
    match version {
        Version::Micro(_) => {
            if xx <= 7 && yy <= 7 {
                crate::patterns::lemma_cell_in_finder_box(b, w, 3, 3, xx, yy);
                chain_alignment(g1, w, version, idx);
                chain_after_alignment(g2, w, version, idx);
            } else if (yy == 0 && xx >= 8) || (xx == 0 && yy >= 8) {
                let g3 = format_info_pattern(g2, w, version, 0);
                crate::patterns::lemma_number_pattern_all_len(g2, w, 0, 15, Color::Dark,
                    Color::Light, crate::tables::spec_format_info_coords_micro_qr(), 15);
                let gh = crate::patterns::line_pattern(g3, w, 8, 0, w - 1, 0, Color::Dark,
                    Color::Light);
                if yy == 0 {
                    crate::patterns::lemma_cell_on_line(g3, w, 8, 0, w - 1, 0, Color::Dark,
                        Color::Light, xx, yy);
                    crate::patterns::lemma_line_pattern_monotone(gh, w, 0, 8, 0, w - 1,
                        Color::Dark, Color::Light, idx);
                } else {
                    crate::patterns::lemma_cell_on_line(gh, w, 0, 8, 0, w - 1, Color::Dark,
                        Color::Light, xx, yy);
                }
                let g4 = timing_patterns(g3, w, version);
                chain_version_info(g4, w, version, idx);
            } else {
                // The remaining functional cells of a Micro symbol hug
                // the finder on its right and lower side: the format
                // strip.
                assert((1 <= xx <= 8 && yy == 8) || (xx == 8 && 1 <= yy <= 7));
                let k = lemma_micro_format_witness(xx, yy);
                let coords = crate::tables::spec_format_info_coords_micro_qr();
                crate::patterns::lemma_number_pattern_masks_coords(g2, w, 0, 15, Color::Dark,
                    Color::Light, coords, 15, k);
                crate::patterns::lemma_number_pattern_all_len(g2, w, 0, 15, Color::Dark,
                    Color::Light, coords, 15);
                assert(crate::canvas::flat_index(coords[k].0 as int, coords[k].1 as int, w)
                    == idx);
                let g3 = format_info_pattern(g2, w, version, 0);
                chain_timing(g3, w, version, idx);
                let g4 = timing_patterns(g3, w, version);
                chain_version_info(g4, w, version, idx);
            }
        },
        Version::Normal(a) => {
            assert(w >= 21);
            if (xx <= 7 && yy <= 7) || (xx <= 7 && yy >= w - 8) || (xx >= w - 8 && yy <= 7) {
                // One of the three finder boxes covers the cell.
                let f1 = finder_box(b, w, 3, 3);
                let f2 = finder_box(f1, w, -4, 3);
                if xx <= 7 && yy <= 7 {
                    crate::patterns::lemma_cell_in_finder_box(b, w, 3, 3, xx, yy);
                    crate::patterns::lemma_finder_box_monotone(f1, w, -4, 3, idx);
                    crate::patterns::lemma_finder_box_monotone(f2, w, 3, -4, idx);
                } else if xx >= w - 8 && yy <= 7 {
                    crate::patterns::lemma_cell_in_finder_box(f1, w, -4, 3, xx, yy);
                    crate::patterns::lemma_finder_box_monotone(f2, w, 3, -4, idx);
                } else {
                    crate::patterns::lemma_cell_in_finder_box(f2, w, 3, -4, xx, yy);
                }
                chain_alignment(g1, w, version, idx);
                chain_after_alignment(g2, w, version, idx);
            } else if (xx == 6 && 8 <= yy <= w - 9) || (yy == 6 && 8 <= xx <= w - 9) {
                // The timing lines cover the cell.
                let g3 = format_info_pattern(g2, w, version, 0);
                crate::patterns::lemma_number_pattern_all_len(g2, w, 0, 15, Color::Dark,
                    Color::Light, crate::tables::spec_format_info_coords_qr_main(), 15);
                let g_main = crate::patterns::number_pattern(g2, w, 0, 15, Color::Dark,
                    Color::Light, crate::tables::spec_format_info_coords_qr_main());
                crate::patterns::lemma_number_pattern_all_len(g_main, w, 0, 15, Color::Dark,
                    Color::Light, crate::tables::spec_format_info_coords_qr_side(), 15);
                crate::canvas::lemma_flat_index_bounds(8, -8, w);
                assert(g3.len() == w * w);
                let gh = crate::patterns::line_pattern(g3, w, 8, 6, w - 9, 6, Color::Dark,
                    Color::Light);
                if yy == 6 {
                    crate::patterns::lemma_cell_on_line(g3, w, 8, 6, w - 9, 6, Color::Dark,
                        Color::Light, xx, yy);
                    crate::patterns::lemma_line_pattern_monotone(gh, w, 6, 8, 6, w - 9,
                        Color::Dark, Color::Light, idx);
                } else {
                    crate::patterns::lemma_cell_on_line(gh, w, 6, 8, 6, w - 9, Color::Dark,
                        Color::Light, xx, yy);
                }
                let g4 = timing_patterns(g3, w, version);
                chain_version_info(g4, w, version, idx);
            } else if xx == 8 && yy == w - 8 {
                // The fixed dark module beside the lower-left finder.
                let g3 = format_info_pattern(g2, w, version, 0);
                crate::canvas::lemma_flat_index_bounds(8, -8, w);
                assert(crate::canvas::flat_index(8, -8, w) == idx);
                crate::patterns::lemma_number_pattern_all_len(g2, w, 0, 15, Color::Dark,
                    Color::Light, crate::tables::spec_format_info_coords_qr_main(), 15);
                let g_main = crate::patterns::number_pattern(g2, w, 0, 15, Color::Dark,
                    Color::Light, crate::tables::spec_format_info_coords_qr_main());
                crate::patterns::lemma_number_pattern_all_len(g_main, w, 0, 15, Color::Dark,
                    Color::Light, crate::tables::spec_format_info_coords_qr_side(), 15);
                chain_timing(g3, w, version, idx);
                let g4 = timing_patterns(g3, w, version);
                chain_version_info(g4, w, version, idx);
            } else if xx <= 8 && yy <= 8 {
                // The format strip around the top-left finder.
                assert(xx == 8 || yy == 8);
                assert(!(xx == 6 || yy == 6));
                let k = lemma_main_format_witness(xx, yy);
                let main = crate::tables::spec_format_info_coords_qr_main();
                crate::patterns::lemma_number_pattern_masks_coords(g2, w, 0, 15, Color::Dark,
                    Color::Light, main, 15, k);
                assert(crate::canvas::flat_index(main[k].0 as int, main[k].1 as int, w) == idx);
                let g_main = crate::patterns::number_pattern(g2, w, 0, 15, Color::Dark,
                    Color::Light, main);
                crate::patterns::lemma_number_pattern_all_len(g2, w, 0, 15, Color::Dark,
                    Color::Light, main, 15);
                let side = crate::tables::spec_format_info_coords_qr_side();
                crate::patterns::lemma_number_pattern_monotone(g_main, w, 0, 15, Color::Dark,
                    Color::Light, side, 15, idx);
                crate::canvas::lemma_flat_index_bounds(8, -8, w);
                let g3 = format_info_pattern(g2, w, version, 0);
                chain_timing(g3, w, version, idx);
                let g4 = timing_patterns(g3, w, version);
                chain_version_info(g4, w, version, idx);
            } else if (xx == 8 && yy >= w - 7) || (xx >= w - 8 && yy == 8) {
                // The format strips under the top-right and beside the
                // lower-left finder.
                let k = lemma_side_format_witness(w, xx, yy);
                let side = crate::tables::spec_format_info_coords_qr_side();
                let g_main = crate::patterns::number_pattern(g2, w, 0, 15, Color::Dark,
                    Color::Light, crate::tables::spec_format_info_coords_qr_main());
                crate::patterns::lemma_number_pattern_all_len(g2, w, 0, 15, Color::Dark,
                    Color::Light, crate::tables::spec_format_info_coords_qr_main(), 15);
                crate::patterns::lemma_number_pattern_masks_coords(g_main, w, 0, 15, Color::Dark,
                    Color::Light, side, 15, k);
                crate::patterns::lemma_number_pattern_all_len(g_main, w, 0, 15, Color::Dark,
                    Color::Light, side, 15);
                assert(crate::canvas::flat_index(side[k].0 as int, side[k].1 as int, w) == idx);
                crate::canvas::lemma_flat_index_bounds(8, -8, w);
                let g3 = format_info_pattern(g2, w, version, 0);
                chain_timing(g3, w, version, idx);
                let g4 = timing_patterns(g3, w, version);
                chain_version_info(g4, w, version, idx);
            } else if a >= 7 {
                lemma_alignment_region_masked(a as int, w, b, g1, g2, xx, yy);
                chain_after_alignment(g2, w, version, yy * w + xx);
            } else {
                // The alignment pattern of versions two to six: its
                // pivot is untouched by the finder boxes of a fresh
                // canvas, so the box is drawn over the cell.
                assert(2 <= a <= 6);
                assert(w - 9 <= xx <= w - 5 && w - 9 <= yy <= w - 5);
                let f1 = finder_box(b, w, 3, 3);
                let f2 = finder_box(f1, w, -4, 3);
                let pivot = (w - 7) * w + (w - 7);
                assert(0 <= (w - 7) * w + (w - 7) && (w - 7) * w + (w - 7) < w * w)
                    by (nonlinear_arith)
                    requires 21 <= w;
                crate::patterns::lemma_cell_outside_finder_box(b, w, 3, 3, w - 7, w - 7);
                crate::patterns::lemma_cell_outside_finder_box(f1, w, -4, 3, w - 7, w - 7);
                crate::patterns::lemma_cell_outside_finder_box(f2, w, 3, -4, w - 7, w - 7);
                assert(g1[pivot] == b[pivot]);
                assert(!g1[pivot].is_masked());
                assert(wrap_coord(-7, w) == w - 7);
                crate::patterns::lemma_cell_in_alignment_box(g1, w, -7, -7, xx, yy);
                assert(g2[idx].is_masked());
                chain_after_alignment(g2, w, version, idx);
            }
        },
    }
    assert(crate::canvas::flat_index(x, y, w) == idx);
}


/// Any two distinct alignment centers lie at least sixteen modules
/// apart.
proof fn lemma_alignment_positions_spread(a: int, k1: int, k2: int)
    requires
        7 <= a <= 40,
        0 <= k1 < k2 < spec_alignment_positions(a).len(),
    ensures
        spec_alignment_positions(a)[k2] >= spec_alignment_positions(a)[k1] + 16,
    decreases k2 - k1,
{
    crate::tables::lemma_alignment_positions_facts(a);
    if k2 > k1 + 1 {
        lemma_alignment_positions_spread(a, k1, k2 - 1);
    }
}

/// A cell of the alignment region of a large Normal version is masked
/// once the alignment pass has run over the finder patterns of a fresh
/// canvas: the pivot of the center pair the cell belongs to is touched
/// by no finder box and by no earlier alignment box, so its own box is
/// drawn.
proof fn lemma_alignment_region_masked(
    a: int,
    w: int,
    b: Seq<Module>,
    g1: Seq<Module>,
    g2: Seq<Module>,
    xx: int,
    yy: int,
)
    requires
        7 <= a <= 40,
        w == 4 * a + 17,
        b == blank_grid(w),
        g1 == finder_patterns(b, w, Version::Normal(a as i16)),
        g2 == alignment_patterns(g1, w, Version::Normal(a as i16)),
        0 <= xx < w,
        0 <= yy < w,
        near_alignment_center(spec_alignment_positions(a), xx, yy),
    ensures
        g2[yy * w + xx].is_masked(),
{
    let version = Version::Normal(a as i16);
    let pos = spec_alignment_positions(a);
    let len = pos.len() as int;
    crate::tables::lemma_alignment_positions_facts(a);
    assert(0 <= yy * w + xx && yy * w + xx < w * w) by (nonlinear_arith)
        requires 0 <= xx < w, 0 <= yy < w;
    assert(b.len() == w * w);
    assert(g1.len() == w * w);
    let (i, j) = choose|i: int, j: int|
        0 <= i < pos.len() && 0 <= j < pos.len() && !((i == 0 && (j == 0 || j == pos.len() - 1))
            || (i == pos.len() - 1 && j == 0)) && -2 <= #[trigger] pos[i] - xx <= 2 && -2
            <= #[trigger] pos[j] - yy <= 2;
    let px = pos[i] as int;
    let py = pos[j] as int;
    let pivot = py * w + px;
    assert(6 <= px <= w - 7 && 6 <= py <= w - 7);
    assert(0 <= py * w + px && py * w + px < w * w) by (nonlinear_arith)
        requires 6 <= px, px <= w - 7, 6 <= py, py <= w - 7, 21 <= w;
    // The pivot is not inside any finder box: that would make its pair
    // one of the three excluded corners.
    let f1 = finder_box(b, w, 3, 3);
    let f2 = finder_box(f1, w, -4, 3);
    assert(!g1[pivot].is_masked()) by {
        if g1[pivot].is_masked() {
            crate::patterns::lemma_finder_box_masked_bound(f2, w, 3, -4, px, py);
            crate::patterns::lemma_finder_box_masked_bound(f1, w, -4, 3, px, py);
            crate::patterns::lemma_finder_box_masked_bound(b, w, 3, 3, px, py);
            assert(!b[pivot].is_masked());
            if px <= 7 {
                assert(i == 0) by {
                    if i >= 1 {
                        assert(pos[i] >= 22);
                    }
                }
            }
            if px >= w - 8 {
                assert(i == len - 1) by {
                    if i < len - 1 {
                        assert(pos[i] <= 4 * a - 6);
                    }
                }
            }
            if py <= 7 {
                assert(j == 0) by {
                    if j >= 1 {
                        assert(pos[j] >= 22);
                    }
                }
            }
            if py >= w - 8 {
                assert(j == len - 1) by {
                    if j < len - 1 {
                        assert(pos[j] <= 4 * a - 6);
                    }
                }
            }
        }
    }
    // Nor is it inside the box of any center pair drawn before its own
    // turn: distinct centers lie too far apart.
    let state_i = alignment_product(g1, w, pos, i);
    let state_ij = alignment_column(state_i, w, pos[i], pos, j);
    crate::patterns::lemma_alignment_product_len(g1, w, pos, i);
    crate::patterns::lemma_alignment_column_len(state_i, w, pos[i], pos, j);
    assert(!state_ij[pivot].is_masked()) by {
        if state_ij[pivot].is_masked() {
            crate::patterns::lemma_alignment_column_masked_bound(state_i, w, pos[i], pos, j, px,
                py);
            if state_i[pivot].is_masked() {
                crate::patterns::lemma_alignment_product_masked_bound(g1, w, pos, i, px, py);
                if !g1[pivot].is_masked() {
                    let (i2, j2) = choose|i2: int, j2: int|
                        0 <= i2 < i && 0 <= j2 < pos.len() && -2 <= #[trigger] pos[i2] - px <= 2
                            && -2 <= #[trigger] pos[j2] - py <= 2;
                    lemma_alignment_positions_spread(a, i2, i);
                }
            } else {
                let j2 = choose|j2: int| 0 <= j2 < j && pos[i] - 2 <= px <= pos[i] + 2 && -2
                    <= #[trigger] pos[j2] - py <= 2;
                lemma_alignment_positions_spread(a, j2, j);
            }
        }
    }
    // So the pivot's own box is drawn, and it covers the cell.
    crate::patterns::lemma_cell_in_alignment_box(state_ij, w, px, py, xx, yy);
    assert(alignment_column(state_i, w, pos[i], pos, j + 1) == crate::patterns::alignment_box(
        state_ij, w, px, py));
    assert(alignment_column(state_i, w, pos[i], pos, j + 1)[yy * w + xx].is_masked());
    crate::patterns::lemma_alignment_column_monotone_steps(state_i, w, pos[i], pos, j + 1, len, yy
        * w + xx);
    assert(alignment_product(g1, w, pos, i + 1)[yy * w + xx].is_masked());
    crate::patterns::lemma_alignment_product_monotone_steps(g1, w, pos, i + 1, len, yy * w + xx);
    assert(g2 == alignment_product(g1, w, pos, len));
}

} // verus!
