//! Reading the finished symbol out: the module stream decoded from the
//! packed buffer, and the colors packed into bytes, eight modules each.

use vstd::prelude::*;
use crate::canvas::Canvas;
use crate::module::Module;
use crate::types::Color;

verus! {

broadcast use crate::canvas::lemma_grid_len, crate::canvas::lemma_wf_dimensions;

/// The modules packed into a byte stream, four per byte, as a sequence.
pub open spec fn modules_of_bytes(bytes: Seq<u8>, len: int) -> Seq<Module> {
    Seq::new(len as nat, |i: int| Module::of_byte(bytes[i / 4], i % 4))
}

impl Module {
    /// Decodes the first `len` modules of a packed byte stream, four
    /// modules per byte, two bits each.
    pub fn from_iter(bytes: &[u8], len: usize) -> (r: Vec<Module>)
        requires
            len <= 4 * bytes@.len(),
        ensures
            r@ == modules_of_bytes(bytes@, len as int),
    {
        let mut r: Vec<Module> = Vec::new();
        let mut i: usize = 0;
        while i < len
            invariant
                len <= 4 * bytes@.len(),
                i <= len,
                r@ =~= modules_of_bytes(bytes@, i as int),
            decreases len - i,
        {
            let b = bytes[i / 4];
            let m = Module::from_u8(b, (i % 4) as u8);
            r.push(m);
            i = i + 1;
        }
        r
    }
}

/// The bit a module contributes to the packed color stream: one for
/// dark, zero for light, and zero past the end of the grid.
pub open spec fn color_bit_of(g: Seq<Module>, i: int) -> int {
    if 0 <= i < g.len() && g[i].color() is Dark {
        1
    } else {
        0
    }
}

/// The value of the first `j` bits starting at `start`, packed with the
/// earliest bit highest.
pub open spec fn packed_bits(g: Seq<Module>, start: int, j: int) -> int
    decreases j,
{
    if j <= 0 {
        0
    } else {
        packed_bits(g, start, j - 1) * 2 + color_bit_of(g, start + j - 1)
    }
}

/// `j` packed bits stay below two to the `j`th power.
pub proof fn lemma_packed_bits_bounds(g: Seq<Module>, start: int, j: int)
    requires
        0 <= j <= 8,
    ensures
        0 <= packed_bits(g, start, j) <= 255,
        j <= 7 ==> packed_bits(g, start, j) <= 127,
        j <= 6 ==> packed_bits(g, start, j) <= 63,
        j <= 5 ==> packed_bits(g, start, j) <= 31,
        j <= 4 ==> packed_bits(g, start, j) <= 15,
        j <= 3 ==> packed_bits(g, start, j) <= 7,
        j <= 2 ==> packed_bits(g, start, j) <= 3,
        j <= 1 ==> packed_bits(g, start, j) <= 1,
    decreases j,
{
    if j > 0 {
        lemma_packed_bits_bounds(g, start, j - 1);
    }
}

/// The colors of the grid packed eight to a byte, the first module of
/// each group in the highest bit; the trailing byte carries what is left
/// in its high bits.
pub open spec fn packed_colors(g: Seq<Module>) -> Seq<u8> {
    Seq::new(((g.len() + 7) / 8) as nat, |k: int| (packed_bits(g, 8 * k, 8)) as u8)
}

/// The colors of row `y` packed eight to a byte; the row's trailing
/// byte carries what is left of the row in its low bits.
pub open spec fn row_packed_colors(g: Seq<Module>, w: int, y: int) -> Seq<u8> {
    Seq::new((w / 8 + 1) as nat, |t: int| if t < w / 8 {
        (packed_bits(g, y * w + 8 * t, 8)) as u8
    } else {
        (packed_bits(g, y * w + 8 * t, w % 8)) as u8
    })
}

/// The packed rows of the first `n` rows, one after another.
pub open spec fn rows_packed_colors(g: Seq<Module>, w: int, n: int) -> Seq<u8>
    decreases n,
{
    if n <= 0 {
        Seq::empty()
    } else {
        rows_packed_colors(g, w, n - 1) + row_packed_colors(g, w, n - 1)
    }
}

impl Canvas {
    /// Packs the colors of the canvas into bytes, eight modules per byte
    /// in row-major order, the first module of each group in the highest
    /// bit; the partial trailing byte holds the remainder in its high
    /// bits.
    pub fn color_bits(&self) -> (r: Vec<u8>)
        requires
            self.wf(),
        ensures
            r@ == packed_colors(self.grid()),
            r@.len() == (self.spec_width() * self.spec_width() + 7) / 8,
    {
        let ghost g = self.grid();
        let cs = self.colors();
        let area = cs.len();
        proof {
            assert(g.len() == area);
            assert(self.spec_width() * self.spec_width() <= 31329) by (nonlinear_arith)
                requires 0 < self.spec_width() <= 177;
        }
        let nbytes = (area + 7) / 8;
        let mut r: Vec<u8> = Vec::new();
        let mut k: usize = 0;
        while k < nbytes
            invariant
                cs@.len() == area,
                g.len() == area,
                area <= 31329,
                nbytes == (area + 7) / 8,
                forall|i: int| 0 <= i < area ==> #[trigger] cs@[i] == g[i].color(),
                k <= nbytes,
                r@ =~= packed_colors(g).take(k as int),
            decreases nbytes - k,
        {
            let mut b: u8 = 0;
            let mut j: usize = 0;
            while j < 8
                invariant
                    cs@.len() == area,
                    g.len() == area,
                    area <= 31329,
                    nbytes == (area + 7) / 8,
                    k < nbytes,
                    forall|i: int| 0 <= i < area ==> #[trigger] cs@[i] == g[i].color(),
                    j <= 8,
                    b == packed_bits(g, 8 * (k as int), j as int),
                decreases 8 - j,
            {
                proof {
                    lemma_packed_bits_bounds(g, 8 * (k as int), j as int);
                }
                let i = k * 8 + j;
                let bit: u8 = if i < area {
                    match cs[i] {
                        Color::Dark => 1,
                        Color::Light => 0,
                    }
                } else {
                    0
                };
                b = b * 2 + bit;
                j = j + 1;
            }
            r.push(b);
            proof {
                assert(packed_colors(g).take(k as int + 1) =~= packed_colors(g).take(
                    k as int).push(b));
            }
            k = k + 1;
        }
        proof {
            assert(packed_colors(g).take(nbytes as int) =~= packed_colors(g));
        }
        r
    }

    /// Packs the colors of the canvas into bytes row by row: each row is
    /// packed eight modules to a byte, and the row's final partial byte
    /// holds what is left of the row in its low bits.
    pub fn color_line_bits(&self) -> (r: Vec<u8>)
        requires
            self.wf(),
        ensures
            r@ == rows_packed_colors(self.grid(), self.spec_width(), self.spec_width()),
    {
        let ghost g = self.grid();
        let ghost w_int = self.spec_width();
        let cs = self.colors();
        let w = self.width();
        let mut r: Vec<u8> = Vec::new();
        let mut y: i16 = 0;
        while y < w
            invariant
                self.wf(),
                w == w_int,
                w_int == self.spec_width(),
                g == self.grid(),
                g.len() == w_int * w_int,
                cs@.len() == w_int * w_int,
                forall|i: int| 0 <= i < g.len() ==> #[trigger] cs@[i] == g[i].color(),
                0 <= y <= w,
                r@ =~= rows_packed_colors(g, w_int, y as int),
            decreases w - y,
        {
            let ghost row_base = rows_packed_colors(g, w_int, y as int);
            let nfull = (w as usize) / 8;
            let mut t: usize = 0;
            while t <= nfull
                invariant
                    self.wf(),
                    w == w_int,
                    w_int == self.spec_width(),
                    g == self.grid(),
                    g.len() == w_int * w_int,
                    cs@.len() == w_int * w_int,
                    forall|i: int| 0 <= i < g.len() ==> #[trigger] cs@[i] == g[i].color(),
                    0 <= y < w,
                    nfull == w_int / 8,
                    row_base == rows_packed_colors(g, w_int, y as int),
                    t <= nfull + 1,
                    r@ =~= row_base + row_packed_colors(g, w_int, y as int).take(t as int),
                decreases nfull + 1 - t,
            {
                let nbits: usize = if t < nfull {
                    8
                } else {
                    (w as usize) % 8
                };
                let mut b: u8 = 0;
                let mut j: usize = 0;
                while j < nbits
                    invariant
                        self.wf(),
                        w == w_int,
                        w_int == self.spec_width(),
                        g == self.grid(),
                        g.len() == w_int * w_int,
                        cs@.len() == w_int * w_int,
                        forall|i: int| 0 <= i < g.len() ==> #[trigger] cs@[i] == g[i].color(),
                        0 <= y < w,
                        nfull == w_int / 8,
                        t <= nfull,
                        nbits <= 8,
                        nbits == if t < nfull { 8int } else { w_int % 8 },
                        j <= nbits,
                        b == packed_bits(g, (y as int) * w_int + 8 * (t as int), j as int),
                    decreases nbits - j,
                {
                    proof {
                        lemma_packed_bits_bounds(g, (y as int) * w_int + 8 * (t as int), j as int);
                        assert(0 <= (y as int) * w_int && (y as int) * w_int + w_int <= w_int
                            * w_int) by (nonlinear_arith)
                            requires 0 <= y < w_int, 0 < w_int;
                    }
                    proof {
                        assert(w_int * w_int <= 31329) by (nonlinear_arith)
                            requires 0 < w_int <= 177;
                        assert(8 * (t as int) + j < w_int);
                    }
                    let i = (y as usize) * (w as usize) + t * 8 + j;
                    let bit: u8 = match cs[i] {
                        Color::Dark => 1,
                        Color::Light => 0,
                    };
                    b = b * 2 + bit;
                    j = j + 1;
                }
                r.push(b);
                proof {
                    let row = row_packed_colors(g, w_int, y as int);
                    assert(row[t as int] == b);
                    assert(row.take(t as int + 1) =~= row.take(t as int).push(b));
                }
                t = t + 1;
            }
            proof {
                let row = row_packed_colors(g, w_int, y as int);
                assert(row.take(nfull as int + 1) =~= row);
                assert(rows_packed_colors(g, w_int, y as int + 1) =~= row_base + row);
            }
            y = y + 1;
        }
        r
    }
}

} // verus!
