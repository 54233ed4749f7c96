//! The elementary value types of a symbol: module colors, symbol versions
//! and error-correction levels.

use vstd::prelude::*;

verus! {

/// The color of one module (pixel) of the symbol.
#[derive(Debug, PartialEq, Eq, Clone, Copy, Structural)]
pub enum Color {
    Light,
    Dark,
}

impl Color {
    /// The opposite color.
    pub open spec fn complement_spec(self) -> Color {
        match self {
            Color::Light => Color::Dark,
            Color::Dark => Color::Light,
        }
    }

    /// Returns the opposite color.
    pub fn complement(self) -> (r: Color)
        ensures
            r == self.complement_spec(),
    {
        match self {
            Color::Light => Color::Dark,
            Color::Dark => Color::Light,
        }
    }

    /// Returns `dark` when the color is dark and `light` otherwise.
    pub fn select(self, dark: char, light: char) -> (r: char)
        ensures
            r == if self is Dark { dark } else { light },
    {
        match self {
            Color::Dark => dark,
            Color::Light => light,
        }
    }

    /// Maps 0 to light and any other value to dark.
    pub fn from_bit(bit: u8) -> (r: Color)
        ensures
            r == if bit == 0 { Color::Light } else { Color::Dark },
    {
        if bit == 0 {
            Color::Light
        } else {
            Color::Dark
        }
    }
}

/// The size of the symbol: a Normal QR code of version 1 to 40 or a
/// Micro QR code of version 1 to 4.
#[derive(Debug, PartialEq, Eq, Clone, Copy, Structural)]
pub enum Version {
    Normal(i16),
    Micro(i16),
}

impl Version {
    /// The version is one that the standard defines.
    pub open spec fn valid(self) -> bool {
        match self {
            Version::Normal(v) => 1 <= v <= 40,
            Version::Micro(v) => 1 <= v <= 4,
        }
    }

    /// The side length of the symbol in modules.
    pub open spec fn width_spec(self) -> int {
        match self {
            Version::Normal(v) => 4 * v + 17,
            Version::Micro(v) => 2 * v + 9,
        }
    }

    /// Returns the side length of the symbol in modules.
    pub fn width(self) -> (w: i16)
        requires
            self.valid(),
        ensures
            w == self.width_spec(),
            11 <= w <= 177,
            w % 2 == 1,
    {
        match self {
            Version::Normal(v) => 4 * v + 17,
            Version::Micro(v) => 2 * v + 9,
        }
    }

    /// The x-coordinate of the vertical timing column that the data walk
    /// steps around: 6 for Normal symbols, 0 for Micro symbols (whose
    /// timing line lies on the edge that the walk never enters).
    pub open spec fn timing_column_spec(self) -> int {
        match self {
            Version::Normal(_) => 6,
            Version::Micro(_) => 0,
        }
    }

    /// Returns the x-coordinate of the vertical timing column.
    pub fn timing_column(self) -> (tc: i16)
        ensures
            tc == self.timing_column_spec(),
    {
        match self {
            Version::Normal(_) => 6,
            Version::Micro(_) => 0,
        }
    }
}

/// The error-correction level of the symbol.
#[derive(Debug, PartialEq, Eq, Clone, Copy, Structural)]
pub enum EcLevel {
    L,
    M,
    Q,
    H,
}

impl EcLevel {
    /// The position of the level in the internal ordering L, M, Q, H.
    pub open spec fn number_spec(self) -> int {
        match self {
            EcLevel::L => 0,
            EcLevel::M => 1,
            EcLevel::Q => 2,
            EcLevel::H => 3,
        }
    }

    /// Returns the position of the level in the internal ordering L, M, Q, H.
    pub fn number(self) -> (n: u8)
        ensures
            n == self.number_spec(),
    {
        match self {
            EcLevel::L => 0,
            EcLevel::M => 1,
            EcLevel::Q => 2,
            EcLevel::H => 3,
        }
    }
}

/// The (version, error-correction level) pair is one for which the standard
/// defines a symbol. Every level is available to Normal versions; Micro
/// versions support only the listed combinations.
pub open spec fn supported_pair(version: Version, ec_level: EcLevel) -> bool {
    match version {
        Version::Normal(_) => true,
        Version::Micro(v) => match (v, ec_level) {
            (1, EcLevel::L) => true,
            (2, EcLevel::L) => true,
            (2, EcLevel::M) => true,
            (3, EcLevel::L) => true,
            (3, EcLevel::M) => true,
            (4, EcLevel::L) => true,
            (4, EcLevel::M) => true,
            (4, EcLevel::Q) => true,
            _ => false,
        },
    }
}

} // verus!
