use qrcode::canvas::Canvas;
use qrcode::mask::MaskPattern;
use qrcode::module::Module;
use qrcode::types::{Color, EcLevel, Version};

/// Renders a canvas as text: masked modules as
/// `.` and `#`, unmasked modules as `-` and `*`.
fn to_debug_str(c: &Canvas) -> String {
    let width = c.width();
    let mut res = String::with_capacity((width as usize) * (width as usize + 1));
    for y in 0..width {
        res.push('\n');
        for x in 0..width {
            res.push(match c.get(x, y) {
                Module::Masked(Color::Light) => '.',
                Module::Masked(Color::Dark) => '#',
                Module::Unmasked(Color::Light) => '-',
                Module::Unmasked(Color::Dark) => '*',
            });
        }
    }
    res
}

fn create_test_canvas() -> Canvas {
    let mut c = Canvas::new(Version::Normal(1), EcLevel::Q);
    c.draw_all_functional_patterns();
    c.draw_data(
        b"\x20\x5b\x0b\x78\xd1\x72\xdc\x4d\x43\x40\xec\x11\x00",
        b"\xa8\x48\x16\x52\xd9\x36\x9c\x00\x2e\x0f\xb4\x7a\x10",
    );
    c.apply_mask(MaskPattern::Checkerboard);
    c
}

#[test]
fn check_penalty_canvas() {
    let c = create_test_canvas();
    assert_eq!(
        &*to_debug_str(&c),
        "\n\
        #######.##....#######\n\
        #.....#.#..#..#.....#\n\
        #.###.#.#..##.#.###.#\n\
        #.###.#.#.....#.###.#\n\
        #.###.#.#.#...#.###.#\n\
        #.....#...#...#.....#\n\
        #######.#.#.#.#######\n\
        ........#............\n\
        .##.#.##....#.#.#####\n\
        .#......####....#...#\n\
        ..##.###.##...#.##...\n\
        .##.##.#..##.#.#.###.\n\
        #...#.#.#.###.###.#.#\n\
        ........##.#..#...#.#\n\
        #######.#.#....#.##..\n\
        #.....#..#.##.##.#...\n\
        #.###.#.#.#...#######\n\
        #.###.#..#.#.#.#...#.\n\
        #.###.#.#...####.#..#\n\
        #.....#.#.##.#...#.##\n\
        #######.....####....#"
    );
}

#[test]
fn test_penalty_score_adjacent() {
    let c = create_test_canvas();
    assert_eq!(c.compute_adjacent_penalty_score(true), 88);
    assert_eq!(c.compute_adjacent_penalty_score(false), 92);
}

#[test]
fn test_penalty_score_block() {
    let c = create_test_canvas();
    assert_eq!(c.compute_block_penalty_score(), 90);
}

#[test]
fn test_penalty_score_finder() {
    let c = create_test_canvas();
    assert_eq!(c.compute_finder_penalty_score(true), 0);
    assert_eq!(c.compute_finder_penalty_score(false), 40);
}

#[test]
fn test_penalty_score_balance() {
    let c = create_test_canvas();
    assert_eq!(c.compute_balance_penalty_score(), 2);
}

#[test]
fn test_annex_i_qr() {
    // The standard's worked example: "01234567" at version 1, level M,
    // already turned into data and error-correction codewords.
    let mut c = Canvas::new(Version::Normal(1), EcLevel::M);
    c.draw_all_functional_patterns();
    c.draw_data(
        b"\x10\x20\x0c\x56\x61\x80\xec\x11\xec\x11\xec\x11\xec\x11\xec\x11",
        b"\xa5\x24\xd4\xc1\xed\x36\xc7\x87\x2c\x55",
    );
    let c = c.apply_best_mask();
    let mut buffer = String::new();
    for (i, color) in c.colors().iter().enumerate() {
        if i % 21 == 0 {
            buffer.push('\n');
        }
        buffer.push(color.select('#', '.'));
    }
    assert_eq!(
        &*buffer,
        "\n\
        #######..#.##.#######\n\
        #.....#..####.#.....#\n\
        #.###.#.#.....#.###.#\n\
        #.###.#.##....#.###.#\n\
        #.###.#.#.###.#.###.#\n\
        #.....#.#...#.#.....#\n\
        #######.#.#.#.#######\n\
        ........#..##........\n\
        #.#####..#..#.#####..\n\
        ...#.#.##.#.#..#.##..\n\
        ..#...##.#.#.#..#####\n\
        ....#....#.....####..\n\
        ...######..#.#..#....\n\
        ........#.#####..##..\n\
        #######..##.#.##.....\n\
        #.....#.#.#####...#.#\n\
        #.###.#.#...#..#.##..\n\
        #.###.#.##..#..#.....\n\
        #.###.#.#.##.#..#.#..\n\
        #.....#........##.##.\n\
        #######.####.#..#.#.."
    );
}
