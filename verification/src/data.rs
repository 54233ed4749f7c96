//! Data placement: the codeword streams are consumed bit by bit, most
//! significant bit first, and written as unmasked modules along the data
//! walk, passing over every module that a functional pattern holds.

use vstd::prelude::*;
use crate::canvas::Canvas;
use crate::module::Module;
use crate::types::{Color, EcLevel, Version};
use crate::walk::{DataModuleIter, walk_seq};

verus! {

broadcast use crate::canvas::lemma_grid_len, crate::canvas::lemma_wf_dimensions;

/// The color a data bit paints: dark for one, light for zero.
pub open spec fn bit_color(b: bool) -> Color {
    if b {
        Color::Dark
    } else {
        Color::Light
    }
}

/// The first `n` bits of a byte, most significant first.
pub open spec fn byte_bits(b: u8, n: int) -> Seq<bool> {
    Seq::new(n as nat, |j: int| b & (1u8 << ((7 - j) as u8)) != 0)
}

/// The bit stream of a codeword sequence, most significant bit of each
/// byte first. When `half_last` holds, the final codeword contributes
/// only its top four bits.
pub open spec fn codeword_bits(data: Seq<u8>, half_last: bool) -> Seq<bool>
    decreases data.len(),
{
    if data.len() == 0 {
        Seq::empty()
    } else if data.len() == 1 {
        byte_bits(data[0], if half_last { 4 } else { 8 })
    } else {
        byte_bits(data[0], 8) + codeword_bits(data.drop_first(), half_last)
    }
}

/// The final data codeword of the symbol holds only four bits: this is
/// so for the two smallest Micro formats whose capacity ends mid-byte.
pub open spec fn half_codeword_at_end(version: Version, ec_level: EcLevel) -> bool {
    match (version, ec_level) {
        (Version::Micro(1), EcLevel::L) => true,
        (Version::Micro(3), EcLevel::M) => true,
        _ => false,
    }
}

/// The grid and the rest of the walk after the bits from `bi` on have
/// been placed along `rem`: each unmasked module under the walk takes
/// the next bit as an unmasked color, masked modules are passed over,
/// and placement stops when the bits or the walk run out.
pub open spec fn place_bits_state(
    g: Seq<Module>,
    w: int,
    rem: Seq<(int, int)>,
    bits: Seq<bool>,
    bi: int,
) -> (Seq<Module>, Seq<(int, int)>)
    decreases rem.len(),
{
    if rem.len() == 0 || !(0 <= bi < bits.len()) {
        (g, rem)
    } else {
        let p = rem[0];
        if !g[p.1 * w + p.0].is_masked() {
            place_bits_state(
                g.update(p.1 * w + p.0, Module::Unmasked(bit_color(bits[bi]))),
                w,
                rem.drop_first(),
                bits,
                bi + 1,
            )
        } else {
            place_bits_state(g, w, rem.drop_first(), bits, bi)
        }
    }
}

/// Turns a codeword slice into its bit stream.
fn codeword_bits_vec(codewords: &[u8], half_last: bool) -> (r: Vec<bool>)
    requires
        half_last ==> codewords@.len() >= 1,
    ensures
        r@ == codeword_bits(codewords@, half_last),
{
    let n = codewords.len();
    let mut r: Vec<bool> = Vec::new();
    let mut i: usize = 0;
    while i < n
        invariant
            n == codewords@.len(),
            half_last ==> n >= 1,
            i <= n,
            r@ == codeword_bits(codewords@.take(i as int), if i == n { half_last } else { false }),
        decreases n - i,
    {
        let b = codewords[i];
        let bits_end: usize = if half_last && i == n - 1 {
            4
        } else {
            0
        };
        let ghost m = 8 - bits_end;
        let ghost r_pre = r@;
        let mut j: usize = 0;
        while j < 8 - bits_end
            invariant
                0 <= bits_end <= 4,
                m == 8 - bits_end,
                j <= m,
                b == codewords@[i as int],
                i < n,
                r@ == r_pre + byte_bits(b, j as int),
            decreases 8 - bits_end - j,
        {
            let bit = b & (1u8 << (7 - j) as u8) != 0;
            r.push(bit);
            proof {
                assert(byte_bits(b, j as int + 1) =~= byte_bits(b, j as int).push(b & (1u8 << ((7
                    - j as int) as u8)) != 0));
            }
            j = j + 1;
        }
        i = i + 1;
        proof {
            lemma_codeword_bits_snoc(codewords@.take(i as int), if i == n {
                half_last
            } else {
                false
            });
            assert(codewords@.take(i as int).drop_last() =~= codewords@.take(i as int - 1));
            assert(codewords@.take(i as int).last() == b);
        }
    }
    proof {
        assert(codewords@.take(n as int) =~= codewords@);
    }
    r
}

/// The bit stream of a codeword sequence grows bytewise at its end.
proof fn lemma_codeword_bits_snoc(data: Seq<u8>, half_last: bool)
    requires
        data.len() >= 1,
    ensures
        codeword_bits(data, half_last) == codeword_bits(data.drop_last(), false) + byte_bits(
            data.last(),
            if half_last { 4 } else { 8 },
        ),
    decreases data.len(),
{
    if data.len() == 1 {
        assert(codeword_bits(data.drop_last(), false) == Seq::<bool>::empty());
        assert(codeword_bits(data, half_last) =~= codeword_bits(data.drop_last(), false)
            + byte_bits(data.last(), if half_last { 4 } else { 8 }));
    } else {
        lemma_codeword_bits_snoc(data.drop_first(), half_last);
        assert(data.drop_first().drop_last() =~= data.drop_last().drop_first());
        assert(data.drop_last()[0] == data[0]);
        assert(codeword_bits(data, half_last) =~= codeword_bits(data.drop_last(), false)
            + byte_bits(data.last(), if half_last { 4 } else { 8 }));
    }
}

impl Canvas {
    /// Writes the bits of one codeword slice along the walk, passing
    /// over masked modules; `is_half_codeword_at_end` makes the final
    /// codeword contribute only its top four bits.
    pub fn draw_codewords(&mut self, codewords: &[u8], is_half_codeword_at_end: bool,
        coords: &mut DataModuleIter)
        requires
            old(self).wf(),
            old(coords).inv(),
            old(coords).spec_width() == old(self).spec_width(),
            is_half_codeword_at_end ==> codewords@.len() >= 1,
        ensures
            final(self).wf(),
            final(self).spec_version() == old(self).spec_version(),
            final(self).spec_ec_level() == old(self).spec_ec_level(),
            final(self).spec_width() == old(self).spec_width(),
            final(coords).inv(),
            final(coords).spec_width() == old(coords).spec_width(),
            final(coords).spec_tc() == old(coords).spec_tc(),
            (final(self).grid(), final(coords).remaining()) == place_bits_state(
                old(self).grid(),
                old(self).spec_width(),
                old(coords).remaining(),
                codeword_bits(codewords@, is_half_codeword_at_end),
                0,
            ),
    {
        let bits = codeword_bits_vec(codewords, is_half_codeword_at_end);
        self.place_bits(&bits, coords);
    }

    /// Places a bit stream along the walk: every unmasked module under
    /// the walk takes the next bit, masked modules are passed over, and
    /// placement stops when the bits or the walk run out.
    fn place_bits(&mut self, bits: &Vec<bool>, coords: &mut DataModuleIter)
        requires
            old(self).wf(),
            old(coords).inv(),
            old(coords).spec_width() == old(self).spec_width(),
        ensures
            final(self).wf(),
            final(self).spec_version() == old(self).spec_version(),
            final(self).spec_ec_level() == old(self).spec_ec_level(),
            final(self).spec_width() == old(self).spec_width(),
            final(coords).inv(),
            final(coords).spec_width() == old(coords).spec_width(),
            final(coords).spec_tc() == old(coords).spec_tc(),
            (final(self).grid(), final(coords).remaining()) == place_bits_state(
                old(self).grid(),
                old(self).spec_width(),
                old(coords).remaining(),
                bits@,
                0,
            ),
    {
        let ghost g0 = old(self).grid();
        let ghost w = old(self).spec_width();
        let ghost rem0 = old(coords).remaining();
        let mut bi: usize = 0;
        loop
            invariant_except_break
                self.wf(),
                self.spec_version() == old(self).spec_version(),
                self.spec_ec_level() == old(self).spec_ec_level(),
                self.spec_width() == w,
                coords.inv(),
                coords.spec_width() == old(coords).spec_width(),
                coords.spec_width() == w,
                coords.spec_tc() == old(coords).spec_tc(),
                bi <= bits@.len(),
                place_bits_state(self.grid(), w, coords.remaining(), bits@, bi as int)
                    == place_bits_state(g0, w, rem0, bits@, 0),
            ensures
                self.wf(),
                self.spec_version() == old(self).spec_version(),
                self.spec_ec_level() == old(self).spec_ec_level(),
                self.spec_width() == w,
                coords.inv(),
                coords.spec_width() == old(coords).spec_width(),
                coords.spec_tc() == old(coords).spec_tc(),
                (self.grid(), coords.remaining()) == place_bits_state(g0, w, rem0, bits@, 0),
            decreases coords.remaining().len(),
        {
            if bi >= bits.len() {
                proof {
                    assert(place_bits_state(self.grid(), w, coords.remaining(), bits@, bi as int)
                        == (self.grid(), coords.remaining()));
                }
                break ;
            }
            let ghost rem_pre = coords.remaining();
            let next = coords.next();
            match next {
                None => {
                    proof {
                        assert(rem_pre.len() == 0);
                        assert(place_bits_state(self.grid(), w, rem_pre, bits@, bi as int) == (
                            self.grid(),
                            rem_pre,
                        ));
                    }
                    break ;
                },
                Some((x, y)) => {
                    let m = self.get(x, y);
                    proof {
                        assert(rem_pre[0] == (x as int, y as int));
                        assert(crate::canvas::flat_index(x as int, y as int, w) == y as int * w
                            + x as int);
                        assert(m == self.grid()[y as int * w + x as int]);
                    }
                    match m {
                        Module::Unmasked(_) => {
                            let color = if bits[bi] {
                                Color::Dark
                            } else {
                                Color::Light
                            };
                            self.put_unmasked(x, y, color);
                            bi = bi + 1;
                        },
                        Module::Masked(_) => {},
                    }
                },
            }
        }
    }

    /// Draws the data and error-correction codewords into the unmasked
    /// modules along the data walk. For the two Micro formats whose data
    /// capacity ends mid-byte, the final data codeword contributes only
    /// its top four bits.
    pub fn draw_data(&mut self, data: &[u8], ec: &[u8])
        requires
            old(self).wf(),
            half_codeword_at_end(old(self).spec_version(), old(self).spec_ec_level())
                ==> data@.len() >= 1,
        ensures
            final(self).wf(),
            final(self).spec_version() == old(self).spec_version(),
            final(self).spec_ec_level() == old(self).spec_ec_level(),
            final(self).spec_width() == old(self).spec_width(),
            final(self).grid() == {
                let w = old(self).spec_width();
                let half = half_codeword_at_end(old(self).spec_version(), old(self).spec_ec_level());
                let s1 = place_bits_state(old(self).grid(), w, walk_seq(w - 1, w - 1, w,
                    old(self).spec_version().timing_column_spec()), codeword_bits(data@, half), 0);
                place_bits_state(s1.0, w, s1.1, codeword_bits(ec@, false), 0).0
            },
    {
        let is_half_codeword_at_end = match (self.version(), self.ec_level()) {
            (Version::Micro(1), EcLevel::L) => true,
            (Version::Micro(3), EcLevel::M) => true,
            _ => false,
        };
        let mut coords = DataModuleIter::new(self.version());
        self.draw_codewords(data, is_half_codeword_at_end, &mut coords);
        self.draw_codewords(ec, false, &mut coords);
    }
}


/// The first `n` cells of the grid in row-major order.
pub open spec fn all_cells(w: int, n: int) -> Seq<(int, int)>
    decreases n,
{
    if n <= 0 {
        Seq::empty()
    } else {
        all_cells(w, n - 1).push((((n - 1) % w), ((n - 1) / w)))
    }
}

/// The first `n` cells of the grid in row-major order, leaving out the
/// column `tc` that the data walk never enters.
pub open spec fn data_cells(w: int, tc: int, n: int) -> Seq<(int, int)>
    decreases n,
{
    if n <= 0 {
        Seq::empty()
    } else if (n - 1) % w == tc {
        data_cells(w, tc, n - 1)
    } else {
        data_cells(w, tc, n - 1).push((((n - 1) % w), ((n - 1) / w)))
    }
}

/// How many of the listed cells hold an unmasked module of `g`.
pub open spec fn unmasked_count(g: Seq<Module>, w: int, cells: Seq<(int, int)>) -> int
    decreases cells.len(),
{
    if cells.len() == 0 {
        0
    } else {
        (if !g[cells[0].1 * w + cells[0].0].is_masked() {
            1int
        } else {
            0int
        }) + unmasked_count(g, w, cells.drop_first())
    }
}

/// How many of the listed cells hold a masked module of `g`.
pub open spec fn masked_count(g: Seq<Module>, w: int, cells: Seq<(int, int)>) -> int
    decreases cells.len(),
{
    if cells.len() == 0 {
        0
    } else {
        (if g[cells[0].1 * w + cells[0].0].is_masked() {
            1int
        } else {
            0int
        }) + masked_count(g, w, cells.drop_first())
    }
}

/// Counting distributes over appending one cell.
proof fn lemma_count_push(g: Seq<Module>, w: int, cells: Seq<(int, int)>, c: (int, int))
    ensures
        unmasked_count(g, w, cells.push(c)) == unmasked_count(g, w, cells) + (if !g[c.1 * w
            + c.0].is_masked() {
            1int
        } else {
            0int
        }),
        masked_count(g, w, cells.push(c)) == masked_count(g, w, cells) + (if g[c.1 * w
            + c.0].is_masked() {
            1int
        } else {
            0int
        }),
    decreases cells.len(),
{
    if cells.len() == 0 {
        assert(cells.push(c).drop_first() =~= cells);
    } else {
        assert(cells.push(c).drop_first() =~= cells.drop_first().push(c));
        lemma_count_push(g, w, cells.drop_first(), c);
    }
}

/// Every cell counts as masked or as unmasked, never both.
proof fn lemma_count_complement(g: Seq<Module>, w: int, cells: Seq<(int, int)>)
    ensures
        unmasked_count(g, w, cells) + masked_count(g, w, cells) == cells.len(),
    decreases cells.len(),
{
    if cells.len() > 0 {
        lemma_count_complement(g, w, cells.drop_first());
    }
}

/// Removing one cell removes its contribution from the count.
proof fn lemma_count_remove(g: Seq<Module>, w: int, cells: Seq<(int, int)>, i: int)
    requires
        0 <= i < cells.len(),
    ensures
        unmasked_count(g, w, cells) == unmasked_count(g, w, cells.remove(i)) + (if !g[cells[i].1
            * w + cells[i].0].is_masked() {
            1int
        } else {
            0int
        }),
    decreases i,
{
    if i == 0 {
        assert(cells.remove(0) =~= cells.drop_first());
    } else {
        assert(cells.remove(i).drop_first() =~= cells.drop_first().remove(i - 1));
        lemma_count_remove(g, w, cells.drop_first(), i - 1);
    }
}

/// Two listings of the same cells count the same unmasked modules.
proof fn lemma_count_permutation(g: Seq<Module>, w: int, s1: Seq<(int, int)>, s2: Seq<(int, int)>)
    requires
        s1.to_multiset() == s2.to_multiset(),
    ensures
        unmasked_count(g, w, s1) == unmasked_count(g, w, s2),
    decreases s1.len(),
{
    broadcast use vstd::seq_lib::group_to_multiset_ensures;

    if s1.len() == 0 {
        assert(s2.to_multiset().len() == 0);
        assert(s2.len() == 0);
    } else {
        let e = s1[0];
        assert(s1.contains(e));
        assert(s2.to_multiset().count(e) > 0);
        assert(s2.contains(e));
        let i = choose|i: int| 0 <= i < s2.len() && s2[i] == e;
        assert(s1.remove(0).to_multiset() == s1.to_multiset().remove(e));
        assert(s2.remove(i).to_multiset() == s2.to_multiset().remove(e));
        assert(s1.remove(0) =~= s1.drop_first());
        lemma_count_permutation(g, w, s1.drop_first(), s2.remove(i));
        lemma_count_remove(g, w, s2, i);
    }
}

/// What the row-major listing off column `tc` holds: every in-range cell
/// off that column whose row-major position is below `n`, each once.
proof fn lemma_data_cells_facts(w: int, tc: int, n: int)
    requires
        0 < w,
        0 <= n <= w * w,
    ensures
        data_cells(w, tc, n).no_duplicates(),
        forall|a: int, b: int| #[trigger] data_cells(w, tc, n).contains((a, b)) <==> (0 <= a < w
            && a != tc && 0 <= b && b * w + a < n),
    decreases n,
{
    if n > 0 {
        lemma_data_cells_facts(w, tc, n - 1);
        let prev = data_cells(w, tc, n - 1);
        let a0 = (n - 1) % w;
        let b0 = (n - 1) / w;
        assert(b0 * w + a0 == n - 1) by (nonlinear_arith)
            requires a0 == (n - 1) % w, b0 == (n - 1) / w, 0 < w, 1 <= n;
        let cur = data_cells(w, tc, n);
        if a0 == tc {
            assert forall|a: int, b: int| #[trigger] cur.contains((a, b)) <==> (0 <= a < w && a
                != tc && 0 <= b && b * w + a < n) by {
                if 0 <= a < w && a != tc && 0 <= b && b * w + a < n {
                    if b * w + a == n - 1 {
                        assert(a == a0) by (nonlinear_arith)
                            requires b * w + a == n - 1, a0 == (n - 1) % w, 0 <= a < w, 0 <= b,
                                0 < w;
                    }
                    assert(b * w + a != n - 1);
                }
            }
        } else {
            assert forall|a: int, b: int| #[trigger] cur.contains((a, b)) <==> (0 <= a < w && a
                != tc && 0 <= b && b * w + a < n) by {
                assert(cur =~= prev.push((a0, b0)));
                if cur.contains((a, b)) {
                    if prev.contains((a, b)) {
                    } else {
                        assert((a, b) == (a0, b0));
                        assert(0 <= a0 < w) by (nonlinear_arith)
                            requires a0 == (n - 1) % w, 0 < w;
                        assert(0 <= b0) by (nonlinear_arith)
                            requires b0 == (n - 1) / w, 0 < w, 1 <= n;
                    }
                } else {
                    if 0 <= a < w && a != tc && 0 <= b && b * w + a < n {
                        if b * w + a < n - 1 {
                            assert(prev.contains((a, b)));
                            assert(cur[prev.len() - 1 + 1 - 1] == prev[prev.len() - 1]);
                            let k = choose|k: int| 0 <= k < prev.len() && prev[k] == (a, b);
                            assert(cur[k] == (a, b));
                            assert(cur.contains((a, b)));
                        } else {
                            assert(b * w + a == n - 1);
                            assert(a == a0 && b == b0) by (nonlinear_arith)
                                requires b * w + a == n - 1, a0 == (n - 1) % w, b0 == (n - 1) / w,
                                    0 <= a < w, 0 <= b, 0 < w;
                            assert(cur.last() == (a, b));
                            assert(cur.contains((a, b)));
                        }
                    }
                }
            }
            assert forall|k1: int, k2: int| 0 <= k1 < k2 < cur.len() implies cur[k1] != cur[k2] by {
                if k2 == cur.len() - 1 {
                    assert(cur[k1] == prev[k1]);
                    assert(prev.contains(prev[k1]));
                    assert(prev[k1].1 * w + prev[k1].0 < n - 1);
                } else {
                    assert(cur[k1] == prev[k1] && cur[k2] == prev[k2]);
                }
            }
        }
    }
}

/// The number of unmasked modules the data walk passes over equals the
/// number of modules the symbol has outside its functional patterns:
/// the walk covers every cell off the timing column exactly once, and
/// the timing column itself is wholly functional.
pub proof fn lemma_walk_unmasked_count(g: Seq<Module>, w: int, tc: int)
    requires
        crate::walk::walk_state_inv(w - 1, w - 1, w, tc),
        g.len() == w * w,
        forall|b: int| 0 <= b < w ==> (#[trigger] g[b * w + tc]).is_masked(),
    ensures
        unmasked_count(g, w, walk_seq(w - 1, w - 1, w, tc)) + masked_count(g, w, all_cells(w, w
            * w)) == w * w,
{
    let walk = walk_seq(w - 1, w - 1, w, tc);
    let cells = data_cells(w, tc, w * w);
    crate::walk::lemma_walk_exactly_once(w - 1, w - 1, w, tc);
    crate::walk::lemma_walk_initial_coverage(w, tc);
    assert(0 <= w * w) by (nonlinear_arith)
        requires 0 < w;
    lemma_data_cells_facts(w, tc, w * w);
    // The walk and the row-major listing hold the same cells, each once.
    assert(walk.no_duplicates());
    assert forall|e: (int, int)| walk.contains(e) <==> cells.contains(e) by {
        let (a, b) = e;
        if walk.contains(e) {
            let k = choose|k: int| 0 <= k < walk.len() && walk[k] == e;
            assert(crate::walk::walk_upcoming(w - 1, w - 1, w, tc, walk[k].0, walk[k].1));
            assert(b * w + a < w * w) by (nonlinear_arith)
                requires 0 <= a < w, 0 <= b < w;
            assert(cells.contains((a, b)));
        }
        if cells.contains(e) {
            assert(0 <= a < w && a != tc && 0 <= b && b * w + a < w * w);
            assert(b < w) by (nonlinear_arith)
                requires 0 <= a < w, 0 <= b, b * w + a < w * w;
            assert(crate::walk::walk_upcoming(w - 1, w - 1, w, tc, a, b));
            let k = choose|k: int| 0 <= k < walk.len() && walk[k] == (a, b);
            assert(walk.contains(e));
        }
    }
    broadcast use vstd::seq_lib::group_to_multiset_ensures;

    walk.lemma_multiset_has_no_duplicates();
    cells.lemma_multiset_has_no_duplicates();
    assert forall|e: (int, int)| walk.to_multiset().count(e) == cells.to_multiset().count(
        e,
    ) by {
        if walk.contains(e) {
            assert(walk.to_multiset().contains(e));
            assert(cells.contains(e));
            assert(cells.to_multiset().contains(e));
        } else {
            assert(walk.to_multiset().count(e) == 0);
            assert(!cells.contains(e));
            assert(cells.to_multiset().count(e) == 0);
        }
    }
    assert(walk.to_multiset() =~= cells.to_multiset());
    lemma_count_permutation(g, w, walk, cells);
    // Off-column cells and all cells count the same unmasked modules,
    // since the timing column holds none.
    lemma_all_vs_data_cells(g, w, tc, w * w);
    lemma_count_complement(g, w, all_cells(w, w * w));
    lemma_all_cells_len(w, w * w);
}

/// The row-major listing of `n` cells has `n` cells.
proof fn lemma_all_cells_len(w: int, n: int)
    requires
        0 <= n,
    ensures
        all_cells(w, n).len() == n,
    decreases n,
{
    if n > 0 {
        lemma_all_cells_len(w, n - 1);
    }
}

/// When the timing column is wholly masked, leaving it out does not
/// change the count of unmasked modules.
proof fn lemma_all_vs_data_cells(g: Seq<Module>, w: int, tc: int, n: int)
    requires
        0 < w,
        0 <= n <= w * w,
        forall|b: int| 0 <= b < w ==> (#[trigger] g[b * w + tc]).is_masked(),
    ensures
        unmasked_count(g, w, all_cells(w, n)) == unmasked_count(g, w, data_cells(w, tc, n)),
    decreases n,
{
    if n > 0 {
        lemma_all_vs_data_cells(g, w, tc, n - 1);
        let a0 = (n - 1) % w;
        let b0 = (n - 1) / w;
        lemma_count_push(g, w, all_cells(w, n - 1), (a0, b0));
        if a0 == tc {
            assert(0 <= b0 < w) by (nonlinear_arith)
                requires b0 == (n - 1) / w, 0 < w, 1 <= n <= w * w;
            assert(g[b0 * w + a0].is_masked());
        } else {
            lemma_count_push(g, w, data_cells(w, tc, n - 1), (a0, b0));
        }
    }
}

} // verus!
