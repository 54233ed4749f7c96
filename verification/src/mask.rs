//! The mask patterns: the eight XOR masks of Normal symbols (of which
//! Micro symbols use four), their application to the canvas, and the
//! format-information word that records the chosen mask.

use vstd::prelude::*;
use crate::canvas::{Canvas, flat_index};
use crate::module::Module;
use crate::patterns::{format_info_pattern, lemma_row_major};
use crate::types::{Color, EcLevel, Version};

verus! {

broadcast use crate::canvas::lemma_grid_len, crate::canvas::lemma_wf_dimensions;

/// The mask patterns, named after their shapes. Normal symbols may use
/// all eight; Micro symbols use only `HorizontalLines`,
/// `LargeCheckerboard`, `Diamonds` and `Meadow`.
#[derive(Debug, Copy, Clone, PartialEq, Eq, Structural)]
pub enum MaskPattern {
    /// Pattern 0 of Normal symbols: `(x + y) % 2 == 0`.
    Checkerboard,
    /// Pattern 1: `y % 2 == 0`.
    HorizontalLines,
    /// Pattern 2: `x % 3 == 0`.
    VerticalLines,
    /// Pattern 3: `(x + y) % 3 == 0`.
    DiagonalLines,
    /// Pattern 4: `(y / 2 + x / 3) % 2 == 0`.
    LargeCheckerboard,
    /// Pattern 5: `(x * y) % 2 + (x * y) % 3 == 0`.
    Fields,
    /// Pattern 6: `((x * y) % 2 + (x * y) % 3) % 2 == 0`.
    Diamonds,
    /// Pattern 7: `((x + y) % 2 + (x * y) % 3) % 2 == 0`.
    Meadow,
}

impl MaskPattern {
    /// The pattern's number in the standard's ordering.
    pub open spec fn number_spec(self) -> int {
        match self {
            MaskPattern::Checkerboard => 0,
            MaskPattern::HorizontalLines => 1,
            MaskPattern::VerticalLines => 2,
            MaskPattern::DiagonalLines => 3,
            MaskPattern::LargeCheckerboard => 4,
            MaskPattern::Fields => 5,
            MaskPattern::Diamonds => 6,
            MaskPattern::Meadow => 7,
        }
    }

    /// Returns the pattern's number in the standard's ordering.
    pub fn number(self) -> (n: u8)
        ensures
            n == self.number_spec(),
    {
        match self {
            MaskPattern::Checkerboard => 0,
            MaskPattern::HorizontalLines => 1,
            MaskPattern::VerticalLines => 2,
            MaskPattern::DiagonalLines => 3,
            MaskPattern::LargeCheckerboard => 4,
            MaskPattern::Fields => 5,
            MaskPattern::Diamonds => 6,
            MaskPattern::Meadow => 7,
        }
    }

    /// The pattern may be used by the version: Micro symbols know only
    /// four of the eight patterns.
    pub open spec fn admissible(self, version: Version) -> bool {
        match version {
            Version::Normal(_) => true,
            Version::Micro(_) => self == MaskPattern::HorizontalLines || self
                == MaskPattern::LargeCheckerboard || self == MaskPattern::Diamonds || self
                == MaskPattern::Meadow,
        }
    }
}

/// Whether mask pattern `p` inverts the module at (x, y).
pub open spec fn mask_predicate(p: MaskPattern, x: int, y: int) -> bool {
    match p {
        MaskPattern::Checkerboard => (x + y) % 2 == 0,
        MaskPattern::HorizontalLines => y % 2 == 0,
        MaskPattern::VerticalLines => x % 3 == 0,
        MaskPattern::DiagonalLines => (x + y) % 3 == 0,
        MaskPattern::LargeCheckerboard => (y / 2 + x / 3) % 2 == 0,
        MaskPattern::Fields => (x * y) % 2 + (x * y) % 3 == 0,
        MaskPattern::Diamonds => ((x * y) % 2 + (x * y) % 3) % 2 == 0,
        MaskPattern::Meadow => ((x + y) % 2 + (x * y) % 3) % 2 == 0,
    }
}

/// Whether the checkerboard mask inverts the module at (x, y).
pub fn checkerboard(x: i16, y: i16) -> (r: bool)
    requires
        0 <= x <= 180,
        0 <= y <= 180,
    ensures
        r == mask_predicate(MaskPattern::Checkerboard, x as int, y as int),
{
    (x + y) % 2 == 0
}

/// Whether the horizontal-lines mask inverts the module at (x, y).
pub fn horizontal_lines(x: i16, y: i16) -> (r: bool)
    requires
        0 <= x <= 180,
        0 <= y <= 180,
    ensures
        r == mask_predicate(MaskPattern::HorizontalLines, x as int, y as int),
{
    y % 2 == 0
}

/// Whether the vertical-lines mask inverts the module at (x, y).
pub fn vertical_lines(x: i16, y: i16) -> (r: bool)
    requires
        0 <= x <= 180,
        0 <= y <= 180,
    ensures
        r == mask_predicate(MaskPattern::VerticalLines, x as int, y as int),
{
    x % 3 == 0
}

/// Whether the diagonal-lines mask inverts the module at (x, y).
pub fn diagonal_lines(x: i16, y: i16) -> (r: bool)
    requires
        0 <= x <= 180,
        0 <= y <= 180,
    ensures
        r == mask_predicate(MaskPattern::DiagonalLines, x as int, y as int),
{
    (x + y) % 3 == 0
}

/// Whether the large-checkerboard mask inverts the module at (x, y).
pub fn large_checkerboard(x: i16, y: i16) -> (r: bool)
    requires
        0 <= x <= 180,
        0 <= y <= 180,
    ensures
        r == mask_predicate(MaskPattern::LargeCheckerboard, x as int, y as int),
{
    ((y / 2) + (x / 3)) % 2 == 0
}

/// Whether the fields mask inverts the module at (x, y).
pub fn fields(x: i16, y: i16) -> (r: bool)
    requires
        0 <= x <= 180,
        0 <= y <= 180,
    ensures
        r == mask_predicate(MaskPattern::Fields, x as int, y as int),
{
    proof {
        assert(x * y <= 32400) by (nonlinear_arith)
            requires 0 <= x <= 180, 0 <= y <= 180;
        assert(x * y >= 0) by (nonlinear_arith)
            requires 0 <= x, 0 <= y;
    }
    (x * y) % 2 + (x * y) % 3 == 0
}

/// Whether the diamonds mask inverts the module at (x, y).
pub fn diamonds(x: i16, y: i16) -> (r: bool)
    requires
        0 <= x <= 180,
        0 <= y <= 180,
    ensures
        r == mask_predicate(MaskPattern::Diamonds, x as int, y as int),
{
    proof {
        assert(x * y <= 32400) by (nonlinear_arith)
            requires 0 <= x <= 180, 0 <= y <= 180;
        assert(x * y >= 0) by (nonlinear_arith)
            requires 0 <= x, 0 <= y;
    }
    ((x * y) % 2 + (x * y) % 3) % 2 == 0
}

/// Whether the meadow mask inverts the module at (x, y).
pub fn meadow(x: i16, y: i16) -> (r: bool)
    requires
        0 <= x <= 180,
        0 <= y <= 180,
    ensures
        r == mask_predicate(MaskPattern::Meadow, x as int, y as int),
{
    proof {
        assert(x * y <= 32400) by (nonlinear_arith)
            requires 0 <= x <= 180, 0 <= y <= 180;
        assert(x * y >= 0) by (nonlinear_arith)
            requires 0 <= x, 0 <= y;
    }
    ((x + y) % 2 + (x * y) % 3) % 2 == 0
}

/// Evaluates mask pattern `p` at (x, y).
pub fn mask_predicate_at(p: MaskPattern, x: i16, y: i16) -> (r: bool)
    requires
        0 <= x <= 180,
        0 <= y <= 180,
    ensures
        r == mask_predicate(p, x as int, y as int),
{
    match p {
        MaskPattern::Checkerboard => checkerboard(x, y),
        MaskPattern::HorizontalLines => horizontal_lines(x, y),
        MaskPattern::VerticalLines => vertical_lines(x, y),
        MaskPattern::DiagonalLines => diagonal_lines(x, y),
        MaskPattern::LargeCheckerboard => large_checkerboard(x, y),
        MaskPattern::Fields => fields(x, y),
        MaskPattern::Diamonds => diamonds(x, y),
        MaskPattern::Meadow => meadow(x, y),
    }
}

/// The grid after the mask pass with pattern `p`: every module becomes
/// masked, an unmasked module with its color inverted where the pattern
/// holds, a masked module with its color kept.
pub open spec fn mask_applied(g: Seq<Module>, w: int, p: MaskPattern) -> Seq<Module> {
    Seq::new(g.len(), |idx: int| Module::Masked(g[idx].mask_spec(mask_predicate(p, idx % w, idx
        / w))))
}

/// The mask pass applied only to the columns left of `x`, and within
/// column `x` to the rows above `y` (the pass walks columns first).
spec fn mask_applied_partial(g: Seq<Module>, w: int, p: MaskPattern, x: int, y: int) -> Seq<
    Module,
> {
    Seq::new(g.len(), |idx: int| {
        let a = idx % w;
        let b = idx / w;
        if a < x || (a == x && b < y) {
            Module::Masked(g[idx].mask_spec(mask_predicate(p, a, b)))
        } else {
            g[idx]
        }
    })
}

/// The position of the level in the standard's ordering of format-word
/// indices: M, L, H, Q.
pub open spec fn ec_standard_order(ec_level: EcLevel) -> int {
    match ec_level {
        EcLevel::L => 1,
        EcLevel::M => 0,
        EcLevel::Q => 3,
        EcLevel::H => 2,
    }
}

/// The mask's two-bit number in the Micro format word.
pub open spec fn micro_mask_number(p: MaskPattern) -> int {
    match p {
        MaskPattern::HorizontalLines => 0,
        MaskPattern::LargeCheckerboard => 1,
        MaskPattern::Diamonds => 2,
        MaskPattern::Meadow => 3,
        _ => 0,
    }
}

/// The number of the (version, level) pair among the Micro formats.
pub open spec fn micro_symbol_number(version: Version, ec_level: EcLevel) -> int {
    match (version, ec_level) {
        (Version::Micro(1), EcLevel::L) => 0,
        (Version::Micro(2), EcLevel::L) => 1,
        (Version::Micro(2), EcLevel::M) => 2,
        (Version::Micro(3), EcLevel::L) => 3,
        (Version::Micro(3), EcLevel::M) => 4,
        (Version::Micro(4), EcLevel::L) => 5,
        (Version::Micro(4), EcLevel::M) => 6,
        (Version::Micro(4), EcLevel::Q) => 7,
        _ => 0,
    }
}

/// The index of the format word in the tables of the standard.
pub open spec fn format_info_index(version: Version, ec_level: EcLevel, p: MaskPattern) -> int {
    match version {
        Version::Normal(_) => ec_standard_order(ec_level) * 8 + p.number_spec(),
        Version::Micro(_) => micro_symbol_number(version, ec_level) * 4 + micro_mask_number(p),
    }
}

/// The BCH-encoded 15-bit format word that records the level and the
/// chosen mask pattern.
pub open spec fn format_info_word(version: Version, ec_level: EcLevel, p: MaskPattern) -> u16 {
    match version {
        Version::Normal(_) => crate::tables::spec_format_info_qr(format_info_index(version,
            ec_level, p)),
        Version::Micro(_) => crate::tables::spec_format_info_micro_qr(format_info_index(version,
            ec_level, p)),
    }
}

/// One mask write advances the partially masked grid by one module.
proof fn lemma_mask_partial_step(
    g0: Seq<Module>,
    pre: Seq<Module>,
    w: int,
    p: MaskPattern,
    x: int,
    y: int,
)
    requires
        11 <= w <= 177,
        0 <= x < w,
        0 <= y < w,
        g0.len() == w * w,
        pre =~= mask_applied_partial(g0, w, p, x, y),
    ensures
        pre.update(
            flat_index(x, y, w),
            Module::Masked(g0[y * w + x].mask_spec(mask_predicate(p, x, y))),
        ) =~= mask_applied_partial(g0, w, p, x, y + 1),
{
    let fi = flat_index(x, y, w);
    assert(fi == y * w + x);
    lemma_row_major(y, x, w);
    assert(0 <= fi < w * w) by (nonlinear_arith)
        requires fi == y * w + x, 0 <= y < w, 0 <= x < w;
    let lhs = pre.update(fi, Module::Masked(g0[y * w + x].mask_spec(mask_predicate(p, x, y))));
    let rhs = mask_applied_partial(g0, w, p, x, y + 1);
    assert forall|idx: int| 0 <= idx < g0.len() implies lhs[idx] == rhs[idx] by {
        let a = idx % w;
        let b = idx / w;
        lemma_row_major(b, a, w);
        if idx == fi {
            lemma_row_major(y, x, w);
            assert(a == x && b == y);
        } else {
            assert(idx == b * w + a) by (nonlinear_arith)
                requires a == idx % w, b == idx / w, 0 < w;
            assert(!(a == x && b == y));
        }
    }
}

impl Canvas {
    /// Applies a mask to the canvas: every unmasked module is inverted
    /// where the pattern holds and locked, and the format-information
    /// word for the chosen pattern is written over the reserved region.
    pub fn apply_mask(&mut self, pattern: MaskPattern)
        requires
            old(self).wf(),
            pattern.admissible(old(self).spec_version()),
        ensures
            final(self).wf(),
            final(self).spec_version() == old(self).spec_version(),
            final(self).spec_ec_level() == old(self).spec_ec_level(),
            final(self).spec_width() == old(self).spec_width(),
            final(self).grid() =~= format_info_pattern(
                mask_applied(old(self).grid(), old(self).spec_width(), pattern),
                old(self).spec_width(),
                old(self).spec_version(),
                format_info_word(old(self).spec_version(), old(self).spec_ec_level(), pattern),
            ),
    {
        let ghost g0 = old(self).grid();
        let ghost w = old(self).spec_width();
        let width = self.width();
        let mut x: i16 = 0;
        while x < width
            invariant
                self.wf(),
                self.spec_version() == old(self).spec_version(),
                self.spec_ec_level() == old(self).spec_ec_level(),
                self.spec_width() == w,
                width == w,
                g0.len() == w * w,
                0 <= x <= width,
                self.grid() =~= mask_applied_partial(g0, w, pattern, x as int, 0),
            decreases width - x,
        {
            let mut y: i16 = 0;
            while y < width
                invariant
                    self.wf(),
                    self.spec_version() == old(self).spec_version(),
                    self.spec_ec_level() == old(self).spec_ec_level(),
                    self.spec_width() == w,
                    width == w,
                    g0.len() == w * w,
                    0 <= x < width,
                    0 <= y <= width,
                    self.grid() =~= mask_applied_partial(g0, w, pattern, x as int, y as int),
                decreases width - y,
            {
                let module = self.get(x, y);
                proof {
                    assert(flat_index(x as int, y as int, w) == y as int * w + x as int);
                    lemma_row_major(y as int, x as int, w);
                    assert(0 <= (y as int) * w + (x as int) && (y as int) * w + (x as int) < w
                        * w) by (nonlinear_arith)
                        requires 0 <= x < w, 0 <= y < w;
                    assert(module == mask_applied_partial(g0, w, pattern, x as int, y as int)[
                        y as int * w + x as int]);
                    assert(module == g0[y as int * w + x as int]);
                }
                let invert = mask_predicate_at(pattern, x, y);
                let color = module.mask(invert);
                let ghost pre = self.grid();
                self.put(x, y, color);
                proof {
                    lemma_mask_partial_step(g0, pre, w, pattern, x as int, y as int);
                }
                y = y + 1;
            }
            x = x + 1;
            proof {
                assert forall|idx: int| 0 <= idx < g0.len() implies mask_applied_partial(g0, w,
                    pattern, x as int, 0)[idx] == mask_applied_partial(g0, w, pattern, (x
                    - 1) as int, w)[idx] by {
                    assert(0 <= idx / w < w) by (nonlinear_arith)
                        requires 0 <= idx < w * w, 0 < w;
                }
                assert(mask_applied_partial(g0, w, pattern, x as int, 0) =~= mask_applied_partial(
                    g0,
                    w,
                    pattern,
                    (x - 1) as int,
                    w,
                ));
            }
        }
        proof {
            assert(self.grid() =~= mask_applied(g0, w, pattern));
        }
        self.draw_format_info_patterns(pattern);
    }

    /// Writes the format information that records the error-correction
    /// level and the chosen mask pattern.
    pub fn draw_format_info_patterns(&mut self, pattern: MaskPattern)
        requires
            old(self).wf(),
            pattern.admissible(old(self).spec_version()),
        ensures
            final(self).wf(),
            final(self).spec_version() == old(self).spec_version(),
            final(self).spec_ec_level() == old(self).spec_ec_level(),
            final(self).spec_width() == old(self).spec_width(),
            final(self).grid() =~= format_info_pattern(
                old(self).grid(),
                old(self).spec_width(),
                old(self).spec_version(),
                format_info_word(old(self).spec_version(), old(self).spec_ec_level(), pattern),
            ),
    {
        let format_number = match self.version() {
            Version::Normal(_) => {
                let n = self.ec_level().number();
                proof {
                    assert(n < 4 ==> (n ^ 1) == (if n == 0 { 1int } else if n == 1 { 0int } else
                        if n == 2 { 3int } else { 2int })) by (bit_vector);
                }
                let simple_format_number = ((n ^ 1) as usize) * 8 + (pattern.number() as usize);
                crate::tables::format_info_qr(simple_format_number)
            },
            Version::Micro(_) => {
                let micro_pattern_number: usize = match pattern {
                    MaskPattern::HorizontalLines => 0,
                    MaskPattern::LargeCheckerboard => 1,
                    MaskPattern::Diamonds => 2,
                    MaskPattern::Meadow => 3,
                    _ => 0,
                };
                let symbol_number: usize = match (self.version(), self.ec_level()) {
                    (Version::Micro(1), EcLevel::L) => 0,
                    (Version::Micro(2), EcLevel::L) => 1,
                    (Version::Micro(2), EcLevel::M) => 2,
                    (Version::Micro(3), EcLevel::L) => 3,
                    (Version::Micro(3), EcLevel::M) => 4,
                    (Version::Micro(4), EcLevel::L) => 5,
                    (Version::Micro(4), EcLevel::M) => 6,
                    (Version::Micro(4), EcLevel::Q) => 7,
                    _ => 0,
                };
                let simple_format_number = symbol_number * 4 + micro_pattern_number;
                crate::tables::format_info_micro_qr(simple_format_number)
            },
        };
        self.draw_format_info_patterns_with_number(format_number);
    }
}


/// The colors of a grid, module by module.
pub open spec fn colors_of(g: Seq<Module>) -> Seq<Color> {
    Seq::new(g.len(), |i: int| g[i].color())
}

/// The mask as a pure exclusive-or pass: every unmasked module where the
/// pattern holds has its color inverted and keeps its unmasked mark;
/// everything else stays.
pub open spec fn mask_xor(g: Seq<Module>, w: int, p: MaskPattern) -> Seq<Module> {
    Seq::new(g.len(), |idx: int| if !g[idx].is_masked() && mask_predicate(p, idx % w, idx / w) {
        Module::Unmasked(g[idx].color().complement_spec())
    } else {
        g[idx]
    })
}

/// Masking with a pattern twice, without clearing the unmasked marks in
/// between, is the identity: every unmasked module is inverted twice or
/// not at all, and masked modules never change.
pub proof fn lemma_mask_twice_identity(g: Seq<Module>, w: int, p: MaskPattern)
    ensures
        mask_xor(mask_xor(g, w, p), w, p) =~= g,
{
    let once = mask_xor(g, w, p);
    assert forall|idx: int| 0 <= idx < g.len() implies mask_xor(once, w, p)[idx] == g[idx] by {
        if !g[idx].is_masked() && mask_predicate(p, idx % w, idx / w) {
            assert(once[idx] == Module::Unmasked(g[idx].color().complement_spec()));
        }
    }
}

/// Applying a mask pass and then inverting the color of every module
/// that was unmasked and under the pattern restores the colors the
/// canvas had before the mask.
pub proof fn lemma_mask_then_revert(g: Seq<Module>, w: int, p: MaskPattern)
    ensures
        Seq::new(g.len(), |idx: int| if !g[idx].is_masked() && mask_predicate(p, idx % w, idx
            / w) {
            mask_applied(g, w, p)[idx].color().complement_spec()
        } else {
            mask_applied(g, w, p)[idx].color()
        }) =~= colors_of(g),
{
}

/// Distinct level and pattern choices receive distinct format words, so
/// the word on the canvas decodes back to the level and the mask index.
pub proof fn lemma_format_word_injective(
    version: Version,
    ec1: EcLevel,
    p1: MaskPattern,
    ec2: EcLevel,
    p2: MaskPattern,
)
    requires
        version.valid(),
        crate::types::supported_pair(version, ec1),
        crate::types::supported_pair(version, ec2),
        p1.admissible(version),
        p2.admissible(version),
        format_info_word(version, ec1, p1) == format_info_word(version, ec2, p2),
    ensures
        ec1 == ec2,
        p1 == p2,
{
    lemma_format_tables_injective();
    let i1 = format_info_index(version, ec1, p1);
    let i2 = format_info_index(version, ec2, p2);
    assert(0 <= i1 < 32 && 0 <= i2 < 32);
    assert(i1 == i2);
}

/// No two of the thirty-two format words of either table coincide.
pub proof fn lemma_format_tables_injective()
    ensures
        forall|i: int, j: int| 0 <= i < 32 && 0 <= j < 32 && i != j
            ==> #[trigger] crate::tables::spec_format_info_qr(i)
            != #[trigger] crate::tables::spec_format_info_qr(j),
        forall|i: int, j: int| 0 <= i < 32 && 0 <= j < 32 && i != j
            ==> #[trigger] crate::tables::spec_format_info_micro_qr(i)
            != #[trigger] crate::tables::spec_format_info_micro_qr(j),
{
    crate::tables::lemma_spec_format_index_qr_inverse();
    crate::tables::lemma_spec_format_index_micro_qr_inverse();
}


impl Canvas {
    /// Reads the level and mask pattern back out of a format word by the
    /// reverse table lookup: the unique choice whose format word is
    /// `word` for this version, or nothing when no choice matches.
    pub fn decode_format_info(version: Version, word: u16) -> (r: Option<(EcLevel, MaskPattern)>)
        requires
            version.valid(),
        ensures
            r matches Some(t) ==> crate::types::supported_pair(version, t.0) && t.1.admissible(
                version,
            ) && format_info_word(version, t.0, t.1) == word,
            r is None ==> forall|ec: EcLevel, p: MaskPattern|
                crate::types::supported_pair(version, ec) && p.admissible(version)
                    ==> #[trigger] format_info_word(version, ec, p) != word,
    {
        let mut idx: usize = 0;
        while idx < 32
            invariant
                version.valid(),
                idx <= 32,
                forall|ec: EcLevel, p: MaskPattern|
                    crate::types::supported_pair(version, ec) && p.admissible(version)
                        && #[trigger] format_info_index(version, ec, p) < idx
                        ==> format_info_word(version, ec, p) != word,
            decreases 32 - idx,
        {
            let entry = match version {
                Version::Normal(_) => crate::tables::format_info_qr(idx),
                Version::Micro(_) => crate::tables::format_info_micro_qr(idx),
            };
            if entry == word {
                match version {
                    Version::Normal(_) => {
                        let ec = match idx / 8 {
                            0 => EcLevel::M,
                            1 => EcLevel::L,
                            2 => EcLevel::H,
                            _ => EcLevel::Q,
                        };
                        let p = match idx % 8 {
                            0 => MaskPattern::Checkerboard,
                            1 => MaskPattern::HorizontalLines,
                            2 => MaskPattern::VerticalLines,
                            3 => MaskPattern::DiagonalLines,
                            4 => MaskPattern::LargeCheckerboard,
                            5 => MaskPattern::Fields,
                            6 => MaskPattern::Diamonds,
                            _ => MaskPattern::Meadow,
                        };
                        proof {
                            assert(format_info_index(version, ec, p) == idx);
                        }
                        return Some((ec, p));
                    },
                    Version::Micro(_) => {
                        let symbol = idx / 4;
                        let found: Option<EcLevel> = match (version, symbol) {
                            (Version::Micro(1), 0) => Some(EcLevel::L),
                            (Version::Micro(2), 1) => Some(EcLevel::L),
                            (Version::Micro(2), 2) => Some(EcLevel::M),
                            (Version::Micro(3), 3) => Some(EcLevel::L),
                            (Version::Micro(3), 4) => Some(EcLevel::M),
                            (Version::Micro(4), 5) => Some(EcLevel::L),
                            (Version::Micro(4), 6) => Some(EcLevel::M),
                            (Version::Micro(4), 7) => Some(EcLevel::Q),
                            _ => None,
                        };
                        match found {
                            Some(ec) => {
                                let p = match idx % 4 {
                                    0 => MaskPattern::HorizontalLines,
                                    1 => MaskPattern::LargeCheckerboard,
                                    2 => MaskPattern::Diamonds,
                                    _ => MaskPattern::Meadow,
                                };
                                proof {
                                    assert(format_info_index(version, ec, p) == idx);
                                }
                                return Some((ec, p));
                            },
                            None => {
                                proof {
                                    lemma_format_tables_injective();
                                    assert forall|ec: EcLevel, p: MaskPattern|
                                        crate::types::supported_pair(version, ec) && p.admissible(
                                            version,
                                        ) && #[trigger] format_info_index(version, ec, p) <= idx
                                        implies format_info_word(version, ec, p) != word by {
                                        let i2 = format_info_index(version, ec, p);
                                        if i2 == idx {
                                            assert(micro_symbol_number(version, ec) == symbol);
                                        }
                                    }
                                }
                            },
                        }
                    },
                }
            } else {
                proof {
                    assert forall|ec: EcLevel, p: MaskPattern|
                        crate::types::supported_pair(version, ec) && p.admissible(version)
                            && #[trigger] format_info_index(version, ec, p) <= idx
                        implies format_info_word(version, ec, p) != word by {
                        let i2 = format_info_index(version, ec, p);
                        assert(0 <= i2 < 32);
                    }
                }
            }
            idx = idx + 1;
        }
        proof {
            assert forall|ec: EcLevel, p: MaskPattern|
                crate::types::supported_pair(version, ec) && p.admissible(version)
                implies #[trigger] format_info_word(version, ec, p) != word by {
                assert(0 <= format_info_index(version, ec, p) < 32);
            }
        }
        None
    }
}

} // verus!
