use qrcode::canvas::Canvas;
use qrcode::functional::is_functional;
use qrcode::mask::MaskPattern;
use qrcode::module::Module;
use qrcode::types::{Color, EcLevel, Version};
use qrcode::tables::format_info_qr;
use qrcode::walk::DataModuleIter;

#[test]
fn test_is_functional_qr_1() {
    let version = Version::Normal(1);
    assert!(is_functional(version, version.width(), 0, 0));
    assert!(is_functional(version, version.width(), 10, 6));
    assert!(!is_functional(version, version.width(), 10, 5));
    assert!(!is_functional(version, version.width(), 14, 14));
    assert!(is_functional(version, version.width(), 6, 11));
    assert!(!is_functional(version, version.width(), 4, 11));
    assert!(is_functional(version, version.width(), 4, 13));
    assert!(is_functional(version, version.width(), 17, 7));
    assert!(!is_functional(version, version.width(), 17, 17));
}

#[test]
fn test_is_functional_qr_3() {
    let version = Version::Normal(3);
    assert!(is_functional(version, version.width(), 0, 0));
    assert!(!is_functional(version, version.width(), 25, 24));
    assert!(is_functional(version, version.width(), 24, 24));
    assert!(!is_functional(version, version.width(), 9, 25));
    assert!(!is_functional(version, version.width(), 20, 0));
    assert!(is_functional(version, version.width(), 21, 0));
}

#[test]
fn test_is_functional_qr_7() {
    let version = Version::Normal(7);
    assert!(is_functional(version, version.width(), 21, 4));
    assert!(is_functional(version, version.width(), 7, 21));
    assert!(is_functional(version, version.width(), 22, 22));
    assert!(is_functional(version, version.width(), 8, 8));
    assert!(!is_functional(version, version.width(), 19, 5));
    assert!(!is_functional(version, version.width(), 36, 3));
    assert!(!is_functional(version, version.width(), 4, 36));
    assert!(is_functional(version, version.width(), 38, 38));
}

#[test]
fn test_is_functional_micro() {
    let version = Version::Micro(1);
    assert!(is_functional(version, version.width(), 8, 0));
    assert!(is_functional(version, version.width(), 10, 0));
    assert!(!is_functional(version, version.width(), 10, 1));
    assert!(is_functional(version, version.width(), 8, 8));
    assert!(is_functional(version, version.width(), 0, 9));
    assert!(!is_functional(version, version.width(), 1, 9));
}

#[test]
fn test_module_bits_roundtrip() {
    for bits in 0u8..4 {
        assert_eq!(Module::from_bits(bits).to_bits(), bits);
    }
    assert_eq!(Module::from_bits(0), Module::Unmasked(Color::Light));
    assert_eq!(Module::from_bits(1), Module::Unmasked(Color::Dark));
    assert_eq!(Module::from_bits(2), Module::Masked(Color::Light));
    assert_eq!(Module::from_bits(3), Module::Masked(Color::Dark));
}

#[test]
fn test_module_write_and_from_u8() {
    let mut byte = 0u8;
    Module::Masked(Color::Dark).write(&mut byte, 2);
    Module::Unmasked(Color::Dark).write(&mut byte, 0);
    assert_eq!(Module::from_u8(byte, 0), Module::Unmasked(Color::Dark));
    assert_eq!(Module::from_u8(byte, 1), Module::Unmasked(Color::Light));
    assert_eq!(Module::from_u8(byte, 2), Module::Masked(Color::Dark));
    assert_eq!(Module::from_u8(byte, 3), Module::Unmasked(Color::Light));
}

#[test]
fn test_module_mask() {
    // Masking twice without clearing the unmasked mark is the identity
    // on unmasked modules, and masked modules never change.
    assert_eq!(Module::Unmasked(Color::Light).mask(true), Color::Dark);
    assert_eq!(Module::Unmasked(Color::Dark).mask(true), Color::Light);
    assert_eq!(Module::Unmasked(Color::Light).mask(false), Color::Light);
    assert_eq!(Module::Masked(Color::Dark).mask(true), Color::Dark);
    assert_eq!(Module::Masked(Color::Dark).mask(false), Color::Dark);
    for color in [Color::Light, Color::Dark] {
        let once = Module::Unmasked(color).mask(true);
        let twice = Module::Unmasked(once).mask(true);
        assert_eq!(twice, color);
    }
}

#[test]
fn test_module_from_iter() {
    let modules = Module::from_iter(&[0b1110_0100, 0b0000_0011], 6);
    assert_eq!(modules, vec![
        Module::Unmasked(Color::Light),
        Module::Unmasked(Color::Dark),
        Module::Masked(Color::Light),
        Module::Masked(Color::Dark),
        Module::Masked(Color::Dark),
        Module::Unmasked(Color::Light),
    ]);
}

#[test]
fn test_canvas_dimensions() {
    // Every version gets a square canvas of its width, every module
    // defined and initially light.
    for v in 1..=40i16 {
        let version = Version::Normal(v);
        let c = Canvas::new(version, EcLevel::L);
        assert_eq!(c.width(), 4 * v + 17);
        let colors = c.colors();
        assert_eq!(colors.len(), (c.width() as usize) * (c.width() as usize));
        assert!(colors.iter().all(|&col| col == Color::Light));
    }
    for v in 1..=4i16 {
        let version = Version::Micro(v);
        let c = Canvas::new(version, EcLevel::L);
        assert_eq!(c.width(), 2 * v + 9);
        assert_eq!(c.colors().len(), (c.width() as usize) * (c.width() as usize));
    }
}

#[test]
fn test_functional_matches_canvas() {
    // After the functional pass, every coordinate the closed-form test
    // calls functional carries a masked module on the canvas. (The
    // converse does not hold for versions with version information:
    // the closed-form test leaves those two blocks out.)
    for version in [
        Version::Normal(1),
        Version::Normal(2),
        Version::Normal(7),
        Version::Micro(1),
        Version::Micro(4),
    ] {
        let mut c = Canvas::new(version, EcLevel::L);
        c.draw_all_functional_patterns();
        let w = c.width();
        for y in 0..w {
            for x in 0..w {
                if is_functional(version, w, x, y) {
                    assert!(
                        matches!(c.get(x, y), Module::Masked(_)),
                        "version {:?} at ({}, {})",
                        version,
                        x,
                        y
                    );
                }
            }
        }
    }
}

#[test]
fn test_walk_unmasked_count() {
    // The number of unmasked positions the data walk visits equals the
    // area of the symbol less its functional modules.
    for version in [Version::Normal(1), Version::Normal(7), Version::Micro(2)] {
        let mut c = Canvas::new(version, EcLevel::L);
        c.draw_all_functional_patterns();
        let w = c.width();
        let mut functional_count = 0usize;
        for y in 0..w {
            for x in 0..w {
                if matches!(c.get(x, y), Module::Masked(_)) {
                    functional_count += 1;
                }
            }
        }
        let mut it = DataModuleIter::new(version);
        let mut unmasked_visited = 0usize;
        while let Some((x, y)) = it.next() {
            if matches!(c.get(x, y), Module::Unmasked(_)) {
                unmasked_visited += 1;
            }
        }
        assert_eq!(
            unmasked_visited,
            (w as usize) * (w as usize) - functional_count
        );
    }
}

#[test]
fn test_color_bits_readout() {
    // The packed readout has one byte per eight modules, rounded up, and
    // the highest bit of its first byte is the color at the origin.
    let mut c = Canvas::new(Version::Normal(1), EcLevel::L);
    c.draw_all_functional_patterns();
    let bits = c.color_bits();
    assert_eq!(bits.len(), (21 * 21 + 7) / 8);
    assert!(matches!(c.get(0, 0), Module::Masked(Color::Dark)));
    assert_eq!(bits[0] & 0x80, 0x80);

    let blank = Canvas::new(Version::Micro(1), EcLevel::L);
    let blank_bits = blank.color_bits();
    assert_eq!(blank_bits.len(), (11 * 11 + 7) / 8);
    assert!(blank_bits.iter().all(|&b| b == 0));
}

#[test]
fn test_color_line_bits_blank() {
    // Row-wise packing of a blank canvas: three bytes per row, all zero.
    let c = Canvas::new(Version::Normal(1), EcLevel::L);
    let bits = c.color_line_bits();
    assert_eq!(bits.len(), 21 * (21 / 8 + 1));
    assert!(bits.iter().all(|&b| b == 0));
}

#[test]
fn test_format_info_decode() {
    // The format word written for a choice of level and mask decodes
    // back to that choice by the reverse table lookup.
    let decoded = Canvas::decode_format_info(Version::Normal(1), 0x662f);
    assert_eq!(decoded, Some((EcLevel::L, MaskPattern::LargeCheckerboard)));
    let decoded = Canvas::decode_format_info(Version::Normal(1), 0x5412);
    assert_eq!(decoded, Some((EcLevel::M, MaskPattern::Checkerboard)));
    assert_eq!(Canvas::decode_format_info(Version::Normal(1), 0x0000), None);
    let decoded = Canvas::decode_format_info(Version::Micro(2), 0x5099);
    assert_eq!(decoded, Some((EcLevel::L, MaskPattern::LargeCheckerboard)));
    assert_eq!(Canvas::decode_format_info(Version::Micro(1), 0x5099), None);
}

#[test]
fn test_best_mask_deterministic() {
    // Best-mask selection on identical inputs yields identical bits.
    let make = || {
        let mut c = Canvas::new(Version::Normal(1), EcLevel::Q);
        c.draw_all_functional_patterns();
        c.draw_data(
            b"\x20\x5b\x0b\x78\xd1\x72\xdc\x4d\x43\x40\xec\x11\x00",
            b"\xa8\x48\x16\x52\xd9\x36\x9c\x00\x2e\x0f\xb4\x7a\x10",
        );
        c.apply_best_mask().color_bits()
    };
    assert_eq!(make(), make());
}

#[test]
fn test_micro_best_mask_is_admissible() {
    // A Micro symbol selects one of its four patterns: the best-masked
    // canvas equals the lowest-scoring of the four single-mask passes.
    let mut c = Canvas::new(Version::Micro(2), EcLevel::L);
    c.draw_all_functional_patterns();
    c.draw_data(b"\x40\x18\xac\xc3\x00", b"\x86\x0d\x22\xae\x30");
    let best = c.apply_best_mask();
    let micro_patterns = [
        MaskPattern::HorizontalLines,
        MaskPattern::LargeCheckerboard,
        MaskPattern::Diamonds,
        MaskPattern::Meadow,
    ];
    let mut expected: Option<(i32, Vec<u8>)> = None;
    for p in micro_patterns {
        let mut candidate = c.clone();
        candidate.apply_mask(p);
        let score = candidate.compute_total_penalty_scores();
        let better = match &expected {
            None => true,
            Some((s, _)) => score < *s,
        };
        if better {
            expected = Some((score, candidate.color_bits()));
        }
    }
    assert_eq!(best.color_bits(), expected.unwrap().1);
}

#[test]
fn test_alignment_never_overwrites_finder() {
    // For large versions, an alignment draw aimed at a module a finder
    // pattern holds leaves the canvas unchanged.
    let mut c = Canvas::new(Version::Normal(7), EcLevel::L);
    c.draw_finder_patterns();
    let before = c.color_bits();
    c.draw_alignment_pattern_at(6, 6);
    assert_eq!(c.color_bits(), before);
    assert!(matches!(c.get(6, 6), Module::Masked(_)));
}

#[test]
fn test_format_info_decode_roundtrip() {
    // Every Normal format word decodes back to the level and mask it
    // was made for: the thirty-two words are pairwise distinct.
    let levels = [EcLevel::M, EcLevel::L, EcLevel::H, EcLevel::Q];
    let patterns = [
        MaskPattern::Checkerboard,
        MaskPattern::HorizontalLines,
        MaskPattern::VerticalLines,
        MaskPattern::DiagonalLines,
        MaskPattern::LargeCheckerboard,
        MaskPattern::Fields,
        MaskPattern::Diamonds,
        MaskPattern::Meadow,
    ];
    for (o, &ec) in levels.iter().enumerate() {
        for (p, &pattern) in patterns.iter().enumerate() {
            let word = format_info_qr(o * 8 + p);
            let decoded = Canvas::decode_format_info(Version::Normal(1), word);
            assert_eq!(decoded, Some((ec, pattern)));
        }
    }
}
