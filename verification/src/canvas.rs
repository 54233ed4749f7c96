//! The canvas: a square grid of modules stored packed, four modules per
//! byte, that the drawing passes fill in before the symbol is read out.

use vstd::prelude::*;
use crate::module::Module;
use crate::types::{Color, EcLevel, Version, supported_pair};

verus! {

/// Normalizes a coordinate: negative values wrap around by one width, so
/// that -1 addresses the last column or row.
pub open spec fn wrap_coord(c: int, w: int) -> int {
    if c < 0 {
        c + w
    } else {
        c
    }
}

/// The position of the module (x, y) in the row-major module sequence,
/// after wrapping negative coordinates.
pub open spec fn flat_index(x: int, y: int, w: int) -> int {
    wrap_coord(y, w) * w + wrap_coord(x, w)
}

/// The module of a grid `g` of side `w` at (x, y), after wrapping
/// negative coordinates.
pub open spec fn grid_at(g: Seq<Module>, w: int, x: int, y: int) -> Module {
    g[flat_index(x, y, w)]
}

/// A row-major position splits into a byte index and a two-bit slot.
pub proof fn lemma_flat_index_bounds(x: int, y: int, w: int)
    requires
        0 < w,
        -w <= x < w,
        -w <= y < w,
    ensures
        0 <= flat_index(x, y, w) < w * w,
{
    let ux = wrap_coord(x, w);
    let uy = wrap_coord(y, w);
    assert(0 <= ux < w);
    assert(0 <= uy < w);
    assert(uy * w + ux < w * w) by (nonlinear_arith)
        requires 0 <= ux < w, 0 <= uy < w;
    assert(uy * w + ux >= 0) by (nonlinear_arith)
        requires 0 <= ux, 0 <= uy, 0 < w;
}

/// An all-zero byte holds four light unmasked modules.
proof fn lemma_zero_byte(k: int)
    requires
        0 <= k < 4,
    ensures
        Module::of_byte(0u8, k) == Module::Unmasked(Color::Light),
{
    let s = (2 * k) as u8;
    assert(0u8 >> s == 0) by (bit_vector);
    assert(0u8 & 3 == 0) by (bit_vector);
}

/// The area of a symbol no wider than the largest version stays small.
proof fn lemma_area_small(w: int)
    requires
        0 < w <= 177,
    ensures
        w * w <= 31329,
{
    assert(w * w <= 177 * 177) by (nonlinear_arith)
        requires 0 < w <= 177;
}

/// `Canvas` holds the modules of one symbol while the drawing passes,
/// data placement and masking fill it in.
pub struct Canvas {
    version: Version,
    ec_level: EcLevel,
    width: i16,
    /// Modules in left-to-right, then top-to-bottom order, packed four
    /// to a byte, two bits each.
    modules: Vec<u8>,
}

impl Canvas {
    /// The canvas is well formed: its version and level pair is one the
    /// standard defines and the packed buffer has exactly the room the
    /// square grid needs.
    pub closed spec fn wf(self) -> bool {
        &&& self.version.valid()
        &&& supported_pair(self.version, self.ec_level)
        &&& self.width == self.version.width_spec()
        &&& 11 <= self.width <= 177
        &&& self.width % 2 == 1
        &&& self.modules@.len() == (self.width * self.width) / 4 + 1
    }

    pub closed spec fn spec_version(self) -> Version {
        self.version
    }

    pub closed spec fn spec_ec_level(self) -> EcLevel {
        self.ec_level
    }

    pub closed spec fn spec_width(self) -> int {
        self.width as int
    }

    /// The number of modules of the symbol.
    pub open spec fn area(self) -> int {
        self.spec_width() * self.spec_width()
    }

    /// The modules of the canvas in row-major order.
    pub closed spec fn grid(self) -> Seq<Module> {
        Seq::new((self.area()) as nat, |i: int| Module::of_byte(self.modules@[i / 4], i % 4))
    }

    /// Returns the version the canvas was made for.
    pub fn version(&self) -> (v: Version)
        ensures
            v == self.spec_version(),
    {
        self.version
    }

    /// Returns the error-correction level the canvas was made for.
    pub fn ec_level(&self) -> (l: EcLevel)
        ensures
            l == self.spec_ec_level(),
    {
        self.ec_level
    }

    /// Returns the side length of the canvas.
    pub fn width(&self) -> (w: i16)
        ensures
            w == self.spec_width(),
    {
        self.width
    }

    /// Constructs a canvas for the given version and error-correction
    /// level with every module unmasked and light.
    pub fn new(version: Version, ec_level: EcLevel) -> (c: Canvas)
        requires
            version.valid(),
            supported_pair(version, ec_level),
        ensures
            c.wf(),
            c.spec_version() == version,
            c.spec_ec_level() == ec_level,
            c.spec_width() == version.width_spec(),
            c.grid() =~= Seq::new((version.width_spec() * version.width_spec()) as nat,
                |i: int| Module::Unmasked(Color::Light)),
    {
        let width = version.width();
        proof {
            lemma_area_small(width as int);
        }
        let area = (width as usize) * (width as usize);
        let modules = vec![0u8; area / 4 + 1];
        let c = Canvas { version, ec_level, width, modules };
        proof {
            assert(c.area() == area);
            assert forall|i: int| 0 <= i < c.area() implies c.grid()[i] == Module::Unmasked(
                Color::Light,
            ) by {
                assert(c.modules@[i / 4] == 0);
                lemma_zero_byte(i % 4);
            }
        }
        c
    }

    /// Returns the module at (x, y); negative coordinates wrap around.
    pub fn get(&self, x: i16, y: i16) -> (m: Module)
        requires
            self.wf(),
            -self.spec_width() <= x < self.spec_width(),
            -self.spec_width() <= y < self.spec_width(),
        ensures
            m == grid_at(self.grid(), self.spec_width(), x as int, y as int),
    {
        let w = self.width;
        let ux = (if x < 0 { x + w } else { x }) as usize;
        let uy = (if y < 0 { y + w } else { y }) as usize;
        proof {
            lemma_flat_index_bounds(x as int, y as int, w as int);
            lemma_area_small(w as int);
        }
        let index = uy * (w as usize) + ux;
        let byte = self.modules[index / 4];
        Module::from_u8(byte, (index % 4) as u8)
    }

    /// Writes a masked module of the given color at (x, y); negative
    /// coordinates wrap around.
    pub fn put(&mut self, x: i16, y: i16, color: Color)
        requires
            old(self).wf(),
            -old(self).spec_width() <= x < old(self).spec_width(),
            -old(self).spec_width() <= y < old(self).spec_width(),
        ensures
            final(self).wf(),
            final(self).spec_version() == old(self).spec_version(),
            final(self).spec_ec_level() == old(self).spec_ec_level(),
            final(self).spec_width() == old(self).spec_width(),
            final(self).grid() =~= old(self).grid().update(
                flat_index(x as int, y as int, old(self).spec_width()),
                Module::Masked(color),
            ),
    {
        self.set_module(x, y, Module::Masked(color));
    }

    /// Writes an unmasked module of the given color at (x, y); negative
    /// coordinates wrap around.
    pub fn put_unmasked(&mut self, x: i16, y: i16, color: Color)
        requires
            old(self).wf(),
            -old(self).spec_width() <= x < old(self).spec_width(),
            -old(self).spec_width() <= y < old(self).spec_width(),
        ensures
            final(self).wf(),
            final(self).spec_version() == old(self).spec_version(),
            final(self).spec_ec_level() == old(self).spec_ec_level(),
            final(self).spec_width() == old(self).spec_width(),
            final(self).grid() =~= old(self).grid().update(
                flat_index(x as int, y as int, old(self).spec_width()),
                Module::Unmasked(color),
            ),
    {
        self.set_module(x, y, Module::Unmasked(color));
    }

    /// Stores `m` at (x, y) in the packed buffer.
    fn set_module(&mut self, x: i16, y: i16, m: Module)
        requires
            old(self).wf(),
            -old(self).spec_width() <= x < old(self).spec_width(),
            -old(self).spec_width() <= y < old(self).spec_width(),
        ensures
            final(self).wf(),
            final(self).spec_version() == old(self).spec_version(),
            final(self).spec_ec_level() == old(self).spec_ec_level(),
            final(self).spec_width() == old(self).spec_width(),
            final(self).grid() =~= old(self).grid().update(
                flat_index(x as int, y as int, old(self).spec_width()),
                m,
            ),
    {
        let w = self.width;
        let ux = (if x < 0 { x + w } else { x }) as usize;
        let uy = (if y < 0 { y + w } else { y }) as usize;
        proof {
            lemma_flat_index_bounds(x as int, y as int, w as int);
            lemma_area_small(w as int);
        }
        let index = uy * (w as usize) + ux;
        let bi = index / 4;
        let mut byte = self.modules[bi];
        m.write(&mut byte, (index % 4) as u8);
        self.modules[bi] = byte;
        proof {
            let gw = self.spec_width();
            let idx = flat_index(x as int, y as int, gw);
            assert forall|i: int| 0 <= i < self.area() implies self.grid()[i] == old(
                self,
            ).grid().update(idx, m)[i] by {
                if i == idx {
                    assert(self.modules@[i / 4] == byte);
                } else {
                    if i / 4 == bi {
                        assert(i % 4 != idx % 4);
                        assert(Module::of_byte(byte, i % 4) == Module::of_byte(
                            old(self).modules@[bi as int],
                            i % 4,
                        ));
                    } else {
                        assert(self.modules@[i / 4] == old(self).modules@[i / 4]);
                    }
                }
            }
        }
    }
}

/// The module sequence of a canvas always covers the full square.
pub broadcast proof fn lemma_grid_len(c: Canvas)
    ensures
        #[trigger] c.grid().len() == c.area(),
        c.area() >= 0,
{
    assert(c.spec_width() * c.spec_width() >= 0) by (nonlinear_arith);
}

/// What well-formedness guarantees about the dimensions of a canvas.
pub broadcast proof fn lemma_wf_dimensions(c: Canvas)
    requires
        #[trigger] c.wf(),
    ensures
        c.spec_version().valid(),
        supported_pair(c.spec_version(), c.spec_ec_level()),
        c.spec_width() == c.spec_version().width_spec(),
        11 <= c.spec_width() <= 177,
        c.spec_width() % 2 == 1,
{
}

impl Clone for Canvas {
    /// Returns a canvas with the same version, level and modules.
    fn clone(&self) -> (c: Canvas)
        ensures
            c.spec_version() == self.spec_version(),
            c.spec_ec_level() == self.spec_ec_level(),
            c.spec_width() == self.spec_width(),
            c.grid() == self.grid(),
            c.wf() == self.wf(),
    {
        let c = Canvas {
            version: self.version,
            ec_level: self.ec_level,
            width: self.width,
            modules: self.modules.clone(),
        };
        proof {
            assert(c.modules@ =~= self.modules@);
        }
        c
    }
}

} // verus!
