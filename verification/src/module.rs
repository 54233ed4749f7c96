//! One module of the canvas: a color together with the mark that tells
//! whether the module belongs to a functional pattern (and is therefore
//! exempt from masking) or carries a data bit.

use vstd::prelude::*;
use crate::types::Color;

verus! {

/// The state of one module (pixel) of the canvas.
#[derive(Debug, PartialEq, Eq, Clone, Copy, Structural)]
pub enum Module {
    /// A module of a functional pattern, or a data module after masking;
    /// later masking passes leave it unchanged.
    Masked(Color),
    /// A data or error-correction module that masking may still invert.
    Unmasked(Color),
}

impl Module {
    /// The color of the module, whether masked or not.
    pub open spec fn color(self) -> Color {
        match self {
            Module::Masked(c) => c,
            Module::Unmasked(c) => c,
        }
    }

    /// The module belongs to a functional pattern or has been masked.
    pub open spec fn is_masked(self) -> bool {
        self is Masked
    }

    /// The two-bit encoding of the module: the low bit is the color,
    /// the high bit the masked mark.
    pub open spec fn to_bits_spec(self) -> u8 {
        match self {
            Module::Unmasked(Color::Light) => 0,
            Module::Unmasked(Color::Dark) => 1,
            Module::Masked(Color::Light) => 2,
            Module::Masked(Color::Dark) => 3,
        }
    }

    /// The module encoded by the low two bits of `bits`.
    pub open spec fn from_bits_spec(bits: u8) -> Module {
        if bits & 3 == 0 {
            Module::Unmasked(Color::Light)
        } else if bits & 3 == 1 {
            Module::Unmasked(Color::Dark)
        } else if bits & 3 == 2 {
            Module::Masked(Color::Light)
        } else {
            Module::Masked(Color::Dark)
        }
    }

    /// The color the module shows once a mask pass that would invert it
    /// (`should_invert`) has run: an unmasked module is inverted on demand,
    /// a masked module never changes.
    pub open spec fn mask_spec(self, should_invert: bool) -> Color {
        match self {
            Module::Unmasked(c) => if should_invert { c.complement_spec() } else { c },
            Module::Masked(c) => c,
        }
    }

    /// Returns whether the module is dark.
    pub fn is_dark(self) -> (r: bool)
        ensures
            r == (self.color() is Dark),
    {
        match self {
            Module::Masked(Color::Dark) => true,
            Module::Unmasked(Color::Dark) => true,
            _ => false,
        }
    }

    /// Decodes a module from the low two bits of `bits`.
    pub fn from_bits(bits: u8) -> (r: Module)
        ensures
            r == Module::from_bits_spec(bits),
    {
        let b = bits & 3;
        if b == 0 {
            Module::Unmasked(Color::Light)
        } else if b == 1 {
            Module::Unmasked(Color::Dark)
        } else if b == 2 {
            Module::Masked(Color::Light)
        } else {
            Module::Masked(Color::Dark)
        }
    }

    /// Decodes the module stored at position `index` (0 to 3) of a packed
    /// byte, four modules per byte, two bits each.
    pub fn from_u8(data: u8, index: u8) -> (r: Module)
        requires
            index < 4,
        ensures
            r == Module::of_byte(data, index as int),
    {
        Module::from_bits(data >> (index * 2))
    }

    /// The module stored at position `k` (0 to 3) of a packed byte.
    pub open spec fn of_byte(data: u8, k: int) -> Module {
        Module::from_bits_spec(data >> ((2 * k) as u8))
    }

    /// Applies a mask decision to the module: an unmasked module is
    /// inverted when `should_invert` holds, a masked module keeps its
    /// color either way.
    pub fn mask(self, should_invert: bool) -> (r: Color)
        ensures
            r == self.mask_spec(should_invert),
    {
        match (self, should_invert) {
            (Module::Unmasked(c), true) => c.complement(),
            (Module::Unmasked(c), false) => c,
            (Module::Masked(c), _) => c,
        }
    }

    /// Encodes the module into its two-bit form.
    pub fn to_bits(self) -> (r: u8)
        ensures
            r == self.to_bits_spec(),
            r < 4,
    {
        match self {
            Module::Unmasked(Color::Light) => 0,
            Module::Unmasked(Color::Dark) => 1,
            Module::Masked(Color::Light) => 2,
            Module::Masked(Color::Dark) => 3,
        }
    }

    /// Stores the module at position `index` (0 to 3) of a packed byte,
    /// leaving the other three positions unchanged.
    pub fn write(self, target: &mut u8, index: u8)
        requires
            index < 4,
        ensures
            Module::of_byte(*final(target), index as int) == self,
            forall|k: int| 0 <= k < 4 && k != index ==> Module::of_byte(*final(target), k)
                == Module::of_byte(*old(target), k),
    {
        let shift = index * 2;
        let bits = self.to_bits();
        let updated = (*target & !(3u8 << shift)) | (bits << shift);
        proof {
            lemma_two_bit_write(*target, bits, index, index);
            assert forall|k: int| 0 <= k < 4 && k != index implies Module::of_byte(
                updated,
                k,
            ) == Module::of_byte(*target, k) by {
                lemma_two_bit_write(*target, bits, index, k as u8);
            }
        }
        *target = updated;
    }
}

/// Writing a two-bit field into a packed byte stores that field and leaves
/// the other fields of the byte unchanged.
proof fn lemma_two_bit_write(t: u8, v: u8, i: u8, k: u8)
    requires
        i < 4,
        v < 4,
        k < 4,
    ensures
        k == i ==> ((t & !(3u8 << (i * 2))) | (v << (i * 2))) >> ((2 * k) as u8) & 3 == v,
        k != i ==> ((t & !(3u8 << (i * 2))) | (v << (i * 2))) >> ((2 * k) as u8) & 3 == t >> ((2
            * k) as u8) & 3,
{
    assert(k == i ==> ((t & !(3u8 << (i * 2))) | (v << (i * 2))) >> ((2 * k) as u8) & 3 == v)
        by (bit_vector)
        requires i < 4, v < 4, k < 4;
    assert(k != i ==> ((t & !(3u8 << (i * 2))) | (v << (i * 2))) >> ((2 * k) as u8) & 3 == t >> ((2
        * k) as u8) & 3)
        by (bit_vector)
        requires i < 4, v < 4, k < 4;
}

} // verus!
