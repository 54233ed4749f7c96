//! The constant tables of the standard: alignment-pattern center
//! coordinates, the BCH-encoded version-information words, the BCH-encoded
//! format-information words, and the coordinate lists along which the
//! format and version words are written.

use vstd::prelude::*;

verus! {

/// The alignment-pattern center coordinates of Normal version `a`, for
/// versions 7 to 40. The symbol places an alignment pattern at every
/// pair of the Cartesian product of the list with itself, except where
/// a finder pattern stands.
pub open spec fn spec_alignment_positions(a: int) -> Seq<i16> {
    if a == 7 {
        seq![6i16, 22i16, 38i16]
    } else if a == 8 {
        seq![6i16, 24i16, 42i16]
    } else if a == 9 {
        seq![6i16, 26i16, 46i16]
    } else if a == 10 {
        seq![6i16, 28i16, 50i16]
    } else if a == 11 {
        seq![6i16, 30i16, 54i16]
    } else if a == 12 {
        seq![6i16, 32i16, 58i16]
    } else if a == 13 {
        seq![6i16, 34i16, 62i16]
    } else if a == 14 {
        seq![6i16, 26i16, 46i16, 66i16]
    } else if a == 15 {
        seq![6i16, 26i16, 48i16, 70i16]
    } else if a == 16 {
        seq![6i16, 26i16, 50i16, 74i16]
    } else if a == 17 {
        seq![6i16, 30i16, 54i16, 78i16]
    } else if a == 18 {
        seq![6i16, 30i16, 56i16, 82i16]
    } else if a == 19 {
        seq![6i16, 30i16, 58i16, 86i16]
    } else if a == 20 {
        seq![6i16, 34i16, 62i16, 90i16]
    } else if a == 21 {
        seq![6i16, 28i16, 50i16, 72i16, 94i16]
    } else if a == 22 {
        seq![6i16, 26i16, 50i16, 74i16, 98i16]
    } else if a == 23 {
        seq![6i16, 30i16, 54i16, 78i16, 102i16]
    } else if a == 24 {
        seq![6i16, 28i16, 54i16, 80i16, 106i16]
    } else if a == 25 {
        seq![6i16, 32i16, 58i16, 84i16, 110i16]
    } else if a == 26 {
        seq![6i16, 30i16, 58i16, 86i16, 114i16]
    } else if a == 27 {
        seq![6i16, 34i16, 62i16, 90i16, 118i16]
    } else if a == 28 {
        seq![6i16, 26i16, 50i16, 74i16, 98i16, 122i16]
    } else if a == 29 {
        seq![6i16, 30i16, 54i16, 78i16, 102i16, 126i16]
    } else if a == 30 {
        seq![6i16, 26i16, 52i16, 78i16, 104i16, 130i16]
    } else if a == 31 {
        seq![6i16, 30i16, 56i16, 82i16, 108i16, 134i16]
    } else if a == 32 {
        seq![6i16, 34i16, 60i16, 86i16, 112i16, 138i16]
    } else if a == 33 {
        seq![6i16, 30i16, 58i16, 86i16, 114i16, 142i16]
    } else if a == 34 {
        seq![6i16, 34i16, 62i16, 90i16, 118i16, 146i16]
    } else if a == 35 {
        seq![6i16, 30i16, 54i16, 78i16, 102i16, 126i16, 150i16]
    } else if a == 36 {
        seq![6i16, 24i16, 50i16, 76i16, 102i16, 128i16, 154i16]
    } else if a == 37 {
        seq![6i16, 28i16, 54i16, 80i16, 106i16, 132i16, 158i16]
    } else if a == 38 {
        seq![6i16, 32i16, 58i16, 84i16, 110i16, 136i16, 162i16]
    } else if a == 39 {
        seq![6i16, 26i16, 54i16, 82i16, 110i16, 138i16, 166i16]
    } else {
        seq![6i16, 30i16, 58i16, 86i16, 114i16, 142i16, 170i16]
    }
}

/// Returns the alignment-pattern center coordinates of Normal version `a`.
/// Every entry lies between 6 and the last center, which sits seven modules
/// from the right edge.
pub fn alignment_positions(a: i16) -> (r: Vec<i16>)
    requires
        7 <= a <= 40,
    ensures
        r@ == spec_alignment_positions(a as int),
        3 <= r@.len() <= 7,
        forall|k: int| 0 <= k < r@.len() ==> 6 <= #[trigger] r@[k] <= 4 * a + 10,
        r@[0] == 6,
        r@[r@.len() - 1] == 4 * a + 10,
{
    let r = match a {
        7 => vec![6i16, 22i16, 38i16],
        8 => vec![6i16, 24i16, 42i16],
        9 => vec![6i16, 26i16, 46i16],
        10 => vec![6i16, 28i16, 50i16],
        11 => vec![6i16, 30i16, 54i16],
        12 => vec![6i16, 32i16, 58i16],
        13 => vec![6i16, 34i16, 62i16],
        14 => vec![6i16, 26i16, 46i16, 66i16],
        15 => vec![6i16, 26i16, 48i16, 70i16],
        16 => vec![6i16, 26i16, 50i16, 74i16],
        17 => vec![6i16, 30i16, 54i16, 78i16],
        18 => vec![6i16, 30i16, 56i16, 82i16],
        19 => vec![6i16, 30i16, 58i16, 86i16],
        20 => vec![6i16, 34i16, 62i16, 90i16],
        21 => vec![6i16, 28i16, 50i16, 72i16, 94i16],
        22 => vec![6i16, 26i16, 50i16, 74i16, 98i16],
        23 => vec![6i16, 30i16, 54i16, 78i16, 102i16],
        24 => vec![6i16, 28i16, 54i16, 80i16, 106i16],
        25 => vec![6i16, 32i16, 58i16, 84i16, 110i16],
        26 => vec![6i16, 30i16, 58i16, 86i16, 114i16],
        27 => vec![6i16, 34i16, 62i16, 90i16, 118i16],
        28 => vec![6i16, 26i16, 50i16, 74i16, 98i16, 122i16],
        29 => vec![6i16, 30i16, 54i16, 78i16, 102i16, 126i16],
        30 => vec![6i16, 26i16, 52i16, 78i16, 104i16, 130i16],
        31 => vec![6i16, 30i16, 56i16, 82i16, 108i16, 134i16],
        32 => vec![6i16, 34i16, 60i16, 86i16, 112i16, 138i16],
        33 => vec![6i16, 30i16, 58i16, 86i16, 114i16, 142i16],
        34 => vec![6i16, 34i16, 62i16, 90i16, 118i16, 146i16],
        35 => vec![6i16, 30i16, 54i16, 78i16, 102i16, 126i16, 150i16],
        36 => vec![6i16, 24i16, 50i16, 76i16, 102i16, 128i16, 154i16],
        37 => vec![6i16, 28i16, 54i16, 80i16, 106i16, 132i16, 158i16],
        38 => vec![6i16, 32i16, 58i16, 84i16, 110i16, 136i16, 162i16],
        39 => vec![6i16, 26i16, 54i16, 82i16, 110i16, 138i16, 166i16],
        40 => vec![6i16, 30i16, 58i16, 86i16, 114i16, 142i16, 170i16],
        _ => vec![],
    };
    proof {
        assert(r@ =~= spec_alignment_positions(a as int));
    }
    r
}

/// The 18-bit BCH-encoded version-information word of Normal version
/// `a`, for versions 7 to 40.
pub open spec fn spec_version_info(a: int) -> u32 {
    if a == 7 {
        0x07c94
    } else if a == 8 {
        0x085bc
    } else if a == 9 {
        0x09a99
    } else if a == 10 {
        0x0a4d3
    } else if a == 11 {
        0x0bbf6
    } else if a == 12 {
        0x0c762
    } else if a == 13 {
        0x0d847
    } else if a == 14 {
        0x0e60d
    } else if a == 15 {
        0x0f928
    } else if a == 16 {
        0x10b78
    } else if a == 17 {
        0x1145d
    } else if a == 18 {
        0x12a17
    } else if a == 19 {
        0x13532
    } else if a == 20 {
        0x149a6
    } else if a == 21 {
        0x15683
    } else if a == 22 {
        0x168c9
    } else if a == 23 {
        0x177ec
    } else if a == 24 {
        0x18ec4
    } else if a == 25 {
        0x191e1
    } else if a == 26 {
        0x1afab
    } else if a == 27 {
        0x1b08e
    } else if a == 28 {
        0x1cc1a
    } else if a == 29 {
        0x1d33f
    } else if a == 30 {
        0x1ed75
    } else if a == 31 {
        0x1f250
    } else if a == 32 {
        0x209d5
    } else if a == 33 {
        0x216f0
    } else if a == 34 {
        0x228ba
    } else if a == 35 {
        0x2379f
    } else if a == 36 {
        0x24b0b
    } else if a == 37 {
        0x2542e
    } else if a == 38 {
        0x26a64
    } else if a == 39 {
        0x27541
    } else {
        0x28c69
    }
}

/// Returns the version-information word of Normal version `a`.
pub fn version_info(a: i16) -> (r: u32)
    requires
        7 <= a <= 40,
    ensures
        r == spec_version_info(a as int),
{
    match a {
        7 => 0x07c94,
        8 => 0x085bc,
        9 => 0x09a99,
        10 => 0x0a4d3,
        11 => 0x0bbf6,
        12 => 0x0c762,
        13 => 0x0d847,
        14 => 0x0e60d,
        15 => 0x0f928,
        16 => 0x10b78,
        17 => 0x1145d,
        18 => 0x12a17,
        19 => 0x13532,
        20 => 0x149a6,
        21 => 0x15683,
        22 => 0x168c9,
        23 => 0x177ec,
        24 => 0x18ec4,
        25 => 0x191e1,
        26 => 0x1afab,
        27 => 0x1b08e,
        28 => 0x1cc1a,
        29 => 0x1d33f,
        30 => 0x1ed75,
        31 => 0x1f250,
        32 => 0x209d5,
        33 => 0x216f0,
        34 => 0x228ba,
        35 => 0x2379f,
        36 => 0x24b0b,
        37 => 0x2542e,
        38 => 0x26a64,
        39 => 0x27541,
        40 => 0x28c69,
        _ => 0,
    }
}

/// The 15-bit format-information words of Normal symbols, indexed by the
/// standard's ordering of (error-correction level, mask pattern).
pub open spec fn spec_format_info_qr(i: int) -> u16 {
    if i == 0 {
        0x5412
    } else if i == 1 {
        0x5125
    } else if i == 2 {
        0x5e7c
    } else if i == 3 {
        0x5b4b
    } else if i == 4 {
        0x45f9
    } else if i == 5 {
        0x40ce
    } else if i == 6 {
        0x4f97
    } else if i == 7 {
        0x4aa0
    } else if i == 8 {
        0x77c4
    } else if i == 9 {
        0x72f3
    } else if i == 10 {
        0x7daa
    } else if i == 11 {
        0x789d
    } else if i == 12 {
        0x662f
    } else if i == 13 {
        0x6318
    } else if i == 14 {
        0x6c41
    } else if i == 15 {
        0x6976
    } else if i == 16 {
        0x1689
    } else if i == 17 {
        0x13be
    } else if i == 18 {
        0x1ce7
    } else if i == 19 {
        0x19d0
    } else if i == 20 {
        0x0762
    } else if i == 21 {
        0x0255
    } else if i == 22 {
        0x0d0c
    } else if i == 23 {
        0x083b
    } else if i == 24 {
        0x355f
    } else if i == 25 {
        0x3068
    } else if i == 26 {
        0x3f31
    } else if i == 27 {
        0x3a06
    } else if i == 28 {
        0x24b4
    } else if i == 29 {
        0x2183
    } else if i == 30 {
        0x2eda
    } else {
        0x2bed
    }
}

/// Returns the format-information word of Normal symbols at index `i`.
pub fn format_info_qr(i: usize) -> (r: u16)
    requires
        i < 32,
    ensures
        r == spec_format_info_qr(i as int),
{
    match i {
        0 => 0x5412,
        1 => 0x5125,
        2 => 0x5e7c,
        3 => 0x5b4b,
        4 => 0x45f9,
        5 => 0x40ce,
        6 => 0x4f97,
        7 => 0x4aa0,
        8 => 0x77c4,
        9 => 0x72f3,
        10 => 0x7daa,
        11 => 0x789d,
        12 => 0x662f,
        13 => 0x6318,
        14 => 0x6c41,
        15 => 0x6976,
        16 => 0x1689,
        17 => 0x13be,
        18 => 0x1ce7,
        19 => 0x19d0,
        20 => 0x0762,
        21 => 0x0255,
        22 => 0x0d0c,
        23 => 0x083b,
        24 => 0x355f,
        25 => 0x3068,
        26 => 0x3f31,
        27 => 0x3a06,
        28 => 0x24b4,
        29 => 0x2183,
        30 => 0x2eda,
        31 => 0x2bed,
        _ => 0,
    }
}

/// The 15-bit format-information words of Micro symbols, indexed by
/// (symbol number, mask number).
pub open spec fn spec_format_info_micro_qr(i: int) -> u16 {
    if i == 0 {
        0x4445
    } else if i == 1 {
        0x4172
    } else if i == 2 {
        0x4e2b
    } else if i == 3 {
        0x4b1c
    } else if i == 4 {
        0x55ae
    } else if i == 5 {
        0x5099
    } else if i == 6 {
        0x5fc0
    } else if i == 7 {
        0x5af7
    } else if i == 8 {
        0x6793
    } else if i == 9 {
        0x62a4
    } else if i == 10 {
        0x6dfd
    } else if i == 11 {
        0x68ca
    } else if i == 12 {
        0x7678
    } else if i == 13 {
        0x734f
    } else if i == 14 {
        0x7c16
    } else if i == 15 {
        0x7921
    } else if i == 16 {
        0x06de
    } else if i == 17 {
        0x03e9
    } else if i == 18 {
        0x0cb0
    } else if i == 19 {
        0x0987
    } else if i == 20 {
        0x1735
    } else if i == 21 {
        0x1202
    } else if i == 22 {
        0x1d5b
    } else if i == 23 {
        0x186c
    } else if i == 24 {
        0x2508
    } else if i == 25 {
        0x203f
    } else if i == 26 {
        0x2f66
    } else if i == 27 {
        0x2a51
    } else if i == 28 {
        0x34e3
    } else if i == 29 {
        0x31d4
    } else if i == 30 {
        0x3e8d
    } else {
        0x3bba
    }
}

/// Returns the format-information word of Micro symbols at index `i`.
pub fn format_info_micro_qr(i: usize) -> (r: u16)
    requires
        i < 32,
    ensures
        r == spec_format_info_micro_qr(i as int),
{
    match i {
        0 => 0x4445,
        1 => 0x4172,
        2 => 0x4e2b,
        3 => 0x4b1c,
        4 => 0x55ae,
        5 => 0x5099,
        6 => 0x5fc0,
        7 => 0x5af7,
        8 => 0x6793,
        9 => 0x62a4,
        10 => 0x6dfd,
        11 => 0x68ca,
        12 => 0x7678,
        13 => 0x734f,
        14 => 0x7c16,
        15 => 0x7921,
        16 => 0x06de,
        17 => 0x03e9,
        18 => 0x0cb0,
        19 => 0x0987,
        20 => 0x1735,
        21 => 0x1202,
        22 => 0x1d5b,
        23 => 0x186c,
        24 => 0x2508,
        25 => 0x203f,
        26 => 0x2f66,
        27 => 0x2a51,
        28 => 0x34e3,
        29 => 0x31d4,
        30 => 0x3e8d,
        31 => 0x3bba,
        _ => 0,
    }
}

/// The bottom-left version-information block, most significant bit first.
pub open spec fn spec_version_info_coords_bl() -> Seq<(i16, i16)> {
    seq![(5i16, -9i16), (5i16, -10i16), (5i16, -11i16), (4i16, -9i16), (4i16, -10i16), (4i16, -11i16), (3i16, -9i16), (3i16, -10i16), (3i16, -11i16), (2i16, -9i16), (2i16, -10i16), (2i16, -11i16), (1i16, -9i16), (1i16, -10i16), (1i16, -11i16), (0i16, -9i16), (0i16, -10i16), (0i16, -11i16)]
}

/// Returns the list that [`spec_version_info_coords_bl`] describes.
pub fn version_info_coords_bl() -> (r: Vec<(i16, i16)>)
    ensures
        r@ == spec_version_info_coords_bl(),
        r@.len() == 18,
        forall|k: int| 0 <= k < r@.len() ==> 0 <= #[trigger] r@[k].0 <= 5 && -11 <= r@[k].1 <= -9,
{
    let r = vec![(5i16, -9i16), (5i16, -10i16), (5i16, -11i16), (4i16, -9i16), (4i16, -10i16), (4i16, -11i16), (3i16, -9i16), (3i16, -10i16), (3i16, -11i16), (2i16, -9i16), (2i16, -10i16), (2i16, -11i16), (1i16, -9i16), (1i16, -10i16), (1i16, -11i16), (0i16, -9i16), (0i16, -10i16), (0i16, -11i16)];
    proof {
        assert(r@ =~= spec_version_info_coords_bl());
    }
    r
}

/// The top-right version-information block, most significant bit first.
pub open spec fn spec_version_info_coords_tr() -> Seq<(i16, i16)> {
    seq![(-9i16, 5i16), (-10i16, 5i16), (-11i16, 5i16), (-9i16, 4i16), (-10i16, 4i16), (-11i16, 4i16), (-9i16, 3i16), (-10i16, 3i16), (-11i16, 3i16), (-9i16, 2i16), (-10i16, 2i16), (-11i16, 2i16), (-9i16, 1i16), (-10i16, 1i16), (-11i16, 1i16), (-9i16, 0i16), (-10i16, 0i16), (-11i16, 0i16)]
}

/// Returns the list that [`spec_version_info_coords_tr`] describes.
pub fn version_info_coords_tr() -> (r: Vec<(i16, i16)>)
    ensures
        r@ == spec_version_info_coords_tr(),
        r@.len() == 18,
        forall|k: int| 0 <= k < r@.len() ==> -11 <= #[trigger] r@[k].0 <= -9 && 0 <= r@[k].1 <= 5,
{
    let r = vec![(-9i16, 5i16), (-10i16, 5i16), (-11i16, 5i16), (-9i16, 4i16), (-10i16, 4i16), (-11i16, 4i16), (-9i16, 3i16), (-10i16, 3i16), (-11i16, 3i16), (-9i16, 2i16), (-10i16, 2i16), (-11i16, 2i16), (-9i16, 1i16), (-10i16, 1i16), (-11i16, 1i16), (-9i16, 0i16), (-10i16, 0i16), (-11i16, 0i16)];
    proof {
        assert(r@ =~= spec_version_info_coords_tr());
    }
    r
}

/// The format-information positions around the top-left finder of a Normal symbol.
pub open spec fn spec_format_info_coords_qr_main() -> Seq<(i16, i16)> {
    seq![(0i16, 8i16), (1i16, 8i16), (2i16, 8i16), (3i16, 8i16), (4i16, 8i16), (5i16, 8i16), (7i16, 8i16), (8i16, 8i16), (8i16, 7i16), (8i16, 5i16), (8i16, 4i16), (8i16, 3i16), (8i16, 2i16), (8i16, 1i16), (8i16, 0i16)]
}

/// Returns the list that [`spec_format_info_coords_qr_main`] describes.
pub fn format_info_coords_qr_main() -> (r: Vec<(i16, i16)>)
    ensures
        r@ == spec_format_info_coords_qr_main(),
        r@.len() == 15,
        forall|k: int| 0 <= k < r@.len() ==> 0 <= #[trigger] r@[k].0 <= 8 && 0 <= r@[k].1 <= 8,
{
    let r = vec![(0i16, 8i16), (1i16, 8i16), (2i16, 8i16), (3i16, 8i16), (4i16, 8i16), (5i16, 8i16), (7i16, 8i16), (8i16, 8i16), (8i16, 7i16), (8i16, 5i16), (8i16, 4i16), (8i16, 3i16), (8i16, 2i16), (8i16, 1i16), (8i16, 0i16)];
    proof {
        assert(r@ =~= spec_format_info_coords_qr_main());
    }
    r
}

/// The format-information positions split across the top-right and bottom-left finders of a Normal symbol.
pub open spec fn spec_format_info_coords_qr_side() -> Seq<(i16, i16)> {
    seq![(8i16, -1i16), (8i16, -2i16), (8i16, -3i16), (8i16, -4i16), (8i16, -5i16), (8i16, -6i16), (8i16, -7i16), (-8i16, 8i16), (-7i16, 8i16), (-6i16, 8i16), (-5i16, 8i16), (-4i16, 8i16), (-3i16, 8i16), (-2i16, 8i16), (-1i16, 8i16)]
}

/// Returns the list that [`spec_format_info_coords_qr_side`] describes.
pub fn format_info_coords_qr_side() -> (r: Vec<(i16, i16)>)
    ensures
        r@ == spec_format_info_coords_qr_side(),
        r@.len() == 15,
        forall|k: int| 0 <= k < r@.len() ==> -8 <= #[trigger] r@[k].0 <= 8 && -8 <= r@[k].1 <= 8,
{
    let r = vec![(8i16, -1i16), (8i16, -2i16), (8i16, -3i16), (8i16, -4i16), (8i16, -5i16), (8i16, -6i16), (8i16, -7i16), (-8i16, 8i16), (-7i16, 8i16), (-6i16, 8i16), (-5i16, 8i16), (-4i16, 8i16), (-3i16, 8i16), (-2i16, 8i16), (-1i16, 8i16)];
    proof {
        assert(r@ =~= spec_format_info_coords_qr_side());
    }
    r
}

/// The format-information positions beside the finder of a Micro symbol.
pub open spec fn spec_format_info_coords_micro_qr() -> Seq<(i16, i16)> {
    seq![(1i16, 8i16), (2i16, 8i16), (3i16, 8i16), (4i16, 8i16), (5i16, 8i16), (6i16, 8i16), (7i16, 8i16), (8i16, 8i16), (8i16, 7i16), (8i16, 6i16), (8i16, 5i16), (8i16, 4i16), (8i16, 3i16), (8i16, 2i16), (8i16, 1i16)]
}

/// Returns the list that [`spec_format_info_coords_micro_qr`] describes.
pub fn format_info_coords_micro_qr() -> (r: Vec<(i16, i16)>)
    ensures
        r@ == spec_format_info_coords_micro_qr(),
        r@.len() == 15,
        forall|k: int| 0 <= k < r@.len() ==> 1 <= #[trigger] r@[k].0 <= 8 && 1 <= r@[k].1 <= 8,
{
    let r = vec![(1i16, 8i16), (2i16, 8i16), (3i16, 8i16), (4i16, 8i16), (5i16, 8i16), (6i16, 8i16), (7i16, 8i16), (8i16, 8i16), (8i16, 7i16), (8i16, 6i16), (8i16, 5i16), (8i16, 4i16), (8i16, 3i16), (8i16, 2i16), (8i16, 1i16)];
    proof {
        assert(r@ =~= spec_format_info_coords_micro_qr());
    }
    r
}

/// The index of a Normal format word in the table, or a negative value for a word that is not in it.
pub open spec fn spec_format_index_qr(word: u16) -> int {
    if word == 0x5412 {
        0int
    } else if word == 0x5125 {
        1int
    } else if word == 0x5e7c {
        2int
    } else if word == 0x5b4b {
        3int
    } else if word == 0x45f9 {
        4int
    } else if word == 0x40ce {
        5int
    } else if word == 0x4f97 {
        6int
    } else if word == 0x4aa0 {
        7int
    } else if word == 0x77c4 {
        8int
    } else if word == 0x72f3 {
        9int
    } else if word == 0x7daa {
        10int
    } else if word == 0x789d {
        11int
    } else if word == 0x662f {
        12int
    } else if word == 0x6318 {
        13int
    } else if word == 0x6c41 {
        14int
    } else if word == 0x6976 {
        15int
    } else if word == 0x1689 {
        16int
    } else if word == 0x13be {
        17int
    } else if word == 0x1ce7 {
        18int
    } else if word == 0x19d0 {
        19int
    } else if word == 0x0762 {
        20int
    } else if word == 0x0255 {
        21int
    } else if word == 0x0d0c {
        22int
    } else if word == 0x083b {
        23int
    } else if word == 0x355f {
        24int
    } else if word == 0x3068 {
        25int
    } else if word == 0x3f31 {
        26int
    } else if word == 0x3a06 {
        27int
    } else if word == 0x24b4 {
        28int
    } else if word == 0x2183 {
        29int
    } else if word == 0x2eda {
        30int
    } else if word == 0x2bed {
        31int
    } else {
        -1int
    }
}

/// Looking a table entry up by value returns its index: the thirty-two
/// words of the table are pairwise distinct.
pub proof fn lemma_spec_format_index_qr_inverse()
    ensures
        forall|i: int| 0 <= i < 32 ==> spec_format_index_qr(#[trigger] spec_format_info_qr(i)) == i,
{
}

/// The index of a Micro format word in the table, or a negative value for a word that is not in it.
pub open spec fn spec_format_index_micro_qr(word: u16) -> int {
    if word == 0x4445 {
        0int
    } else if word == 0x4172 {
        1int
    } else if word == 0x4e2b {
        2int
    } else if word == 0x4b1c {
        3int
    } else if word == 0x55ae {
        4int
    } else if word == 0x5099 {
        5int
    } else if word == 0x5fc0 {
        6int
    } else if word == 0x5af7 {
        7int
    } else if word == 0x6793 {
        8int
    } else if word == 0x62a4 {
        9int
    } else if word == 0x6dfd {
        10int
    } else if word == 0x68ca {
        11int
    } else if word == 0x7678 {
        12int
    } else if word == 0x734f {
        13int
    } else if word == 0x7c16 {
        14int
    } else if word == 0x7921 {
        15int
    } else if word == 0x06de {
        16int
    } else if word == 0x03e9 {
        17int
    } else if word == 0x0cb0 {
        18int
    } else if word == 0x0987 {
        19int
    } else if word == 0x1735 {
        20int
    } else if word == 0x1202 {
        21int
    } else if word == 0x1d5b {
        22int
    } else if word == 0x186c {
        23int
    } else if word == 0x2508 {
        24int
    } else if word == 0x203f {
        25int
    } else if word == 0x2f66 {
        26int
    } else if word == 0x2a51 {
        27int
    } else if word == 0x34e3 {
        28int
    } else if word == 0x31d4 {
        29int
    } else if word == 0x3e8d {
        30int
    } else if word == 0x3bba {
        31int
    } else {
        -1int
    }
}

/// Looking a table entry up by value returns its index: the thirty-two
/// words of the table are pairwise distinct.
pub proof fn lemma_spec_format_index_micro_qr_inverse()
    ensures
        forall|i: int| 0 <= i < 32 ==> spec_format_index_micro_qr(#[trigger] spec_format_info_micro_qr(i)) == i,
{
}


/// Every coordinate of the format- and version-information lists lies
/// within eleven modules of a corner, so it stays on every canvas.
pub proof fn lemma_info_coords_bounds()
    ensures
        spec_format_info_coords_qr_main().len() == 15,
        spec_format_info_coords_qr_side().len() == 15,
        spec_format_info_coords_micro_qr().len() == 15,
        spec_version_info_coords_bl().len() == 18,
        spec_version_info_coords_tr().len() == 18,
        forall|k: int| 0 <= k < 15 ==> -11 <= (#[trigger] spec_format_info_coords_qr_main()[k]).0
            <= 8 && -11 <= spec_format_info_coords_qr_main()[k].1 <= 8,
        forall|k: int| 0 <= k < 15 ==> -11 <= (#[trigger] spec_format_info_coords_qr_side()[k]).0
            <= 8 && -11 <= spec_format_info_coords_qr_side()[k].1 <= 8,
        forall|k: int| 0 <= k < 15 ==> -11 <= (#[trigger] spec_format_info_coords_micro_qr()[
            k]).0 <= 8 && -11 <= spec_format_info_coords_micro_qr()[k].1 <= 8,
        forall|k: int| 0 <= k < 18 ==> -11 <= (#[trigger] spec_version_info_coords_bl()[k]).0 <= 8
            && -11 <= spec_version_info_coords_bl()[k].1 <= 8,
        forall|k: int| 0 <= k < 18 ==> -11 <= (#[trigger] spec_version_info_coords_tr()[k]).0 <= 8
            && -11 <= spec_version_info_coords_tr()[k].1 <= 8,
{
}

/// What the alignment-center table guarantees: the first center sits at
/// six, the last seven modules from the right edge, inner centers stay
/// well clear of the corners, and consecutive centers lie at least
/// sixteen modules apart.
pub proof fn lemma_alignment_positions_facts(a: int)
    requires
        7 <= a <= 40,
    ensures
        3 <= spec_alignment_positions(a).len() <= 7,
        spec_alignment_positions(a)[0] == 6,
        spec_alignment_positions(a)[spec_alignment_positions(a).len() - 1] == 4 * a + 10,
        forall|k: int| 0 <= k < spec_alignment_positions(a).len() ==> 6
            <= #[trigger] spec_alignment_positions(a)[k] <= 4 * a + 10,
        forall|k: int| 1 <= k < spec_alignment_positions(a).len()
            ==> #[trigger] spec_alignment_positions(a)[k] >= 22,
        forall|k: int| 0 <= k < spec_alignment_positions(a).len() - 1
            ==> #[trigger] spec_alignment_positions(a)[k] <= 4 * a - 6,
        forall|k: int| 0 <= k < spec_alignment_positions(a).len() - 1
            ==> #[trigger] spec_alignment_positions(a)[k + 1] >= spec_alignment_positions(a)[k]
            + 16,
{
}
} // verus!
