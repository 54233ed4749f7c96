use qrcode::canvas::Canvas;
use qrcode::mask::MaskPattern;
use qrcode::module::Module;
use qrcode::types::{Color, EcLevel, Version};

/// Renders a canvas as text: masked modules as
/// `.` and `#`, unmasked modules as `-` and `*`.
fn to_debug_str(c: &Canvas) -> String {
    let width = c.width();
    let mut res = String::with_capacity((width as usize) * (width as usize + 1));
    for y in 0..width {
        res.push('\n');
        for x in 0..width {
            res.push(match c.get(x, y) {
                Module::Masked(Color::Light) => '.',
                Module::Masked(Color::Dark) => '#',
                Module::Unmasked(Color::Light) => '-',
                Module::Unmasked(Color::Dark) => '*',
            });
        }
    }
    res
}

#[test]
fn test_index() {
    let mut c = Canvas::new(Version::Normal(1), EcLevel::L);

    assert_eq!(c.get(0, 4), Module::Unmasked(Color::Light));
    assert_eq!(c.get(-1, -7), Module::Unmasked(Color::Light));
    assert_eq!(c.get(21 - 1, 21 - 7), Module::Unmasked(Color::Light));

    c.put(0, 0, Color::Dark);
    c.put(-1, -7, Color::Light);
    assert_eq!(c.get(0, 0), Module::Masked(Color::Dark));
    assert_eq!(c.get(21 - 1, -7), Module::Masked(Color::Light));
    assert_eq!(c.get(-1, 21 - 7), Module::Masked(Color::Light));
}

#[test]
fn test_debug_str() {
    let mut c = Canvas::new(Version::Normal(1), EcLevel::L);

    for i in 3i16..20 {
        for j in 3i16..20 {
            match ((i * 3) ^ j) % 5 {
                0 => c.put_unmasked(i, j, Color::Light),
                1 => c.put(i, j, Color::Light),
                2 => c.put(i, j, Color::Dark),
                3 => c.put_unmasked(i, j, Color::Light),
                4 => c.put_unmasked(i, j, Color::Dark),
                _ => unreachable!(),
            };
        }
    }

    assert_eq!(
        &*to_debug_str(&c),
        "\n\
        ---------------------\n\
        ---------------------\n\
        ---------------------\n\
        -----####****....----\n\
        -----.##-..##-..#--.-\n\
        ---#*--.*-#.-*#--*.--\n\
        -----*-*-****-*-*----\n\
        ---*.-.-.----#-#-#*#-\n\
        ---.*#.*.*#.*#*#.*#*-\n\
        -----.#-#----.-.#----\n\
        ----.-*.-#--.-#*-#-.-\n\
        ---##*--*..##*--*..--\n\
        ---------------------\n\
        ---*.#.*.#**.#*#.#*#-\n\
        ---##.-##..##..-#..--\n\
        ---.--*.--#.--#*--#*-\n\
        -----.#--.**#--.#--.-\n\
        ---**--**----**--**--\n\
        ---#-*-#-*#.*-.-*-.--\n\
        ---..-...----###-###-\n\
        ---------------------"
    );
}

#[test]
fn test_qr() {
    let mut c = Canvas::new(Version::Normal(1), EcLevel::L);
    c.draw_finder_patterns();
    assert_eq!(
        &*to_debug_str(&c),
        "\n\
        #######.-----.#######\n\
        #.....#.-----.#.....#\n\
        #.###.#.-----.#.###.#\n\
        #.###.#.-----.#.###.#\n\
        #.###.#.-----.#.###.#\n\
        #.....#.-----.#.....#\n\
        #######.-----.#######\n\
        ........-----........\n\
        ---------------------\n\
        ---------------------\n\
        ---------------------\n\
        ---------------------\n\
        ---------------------\n\
        ........-------------\n\
        #######.-------------\n\
        #.....#.-------------\n\
        #.###.#.-------------\n\
        #.###.#.-------------\n\
        #.###.#.-------------\n\
        #.....#.-------------\n\
        #######.-------------"
    );
}

#[test]
fn test_draw_alignment_patterns_1() {
    let mut c = Canvas::new(Version::Normal(1), EcLevel::L);
    c.draw_finder_patterns();
    c.draw_alignment_patterns();
    assert_eq!(
        &*to_debug_str(&c),
        "\n\
        #######.-----.#######\n\
        #.....#.-----.#.....#\n\
        #.###.#.-----.#.###.#\n\
        #.###.#.-----.#.###.#\n\
        #.###.#.-----.#.###.#\n\
        #.....#.-----.#.....#\n\
        #######.-----.#######\n\
        ........-----........\n\
        ---------------------\n\
        ---------------------\n\
        ---------------------\n\
        ---------------------\n\
        ---------------------\n\
        ........-------------\n\
        #######.-------------\n\
        #.....#.-------------\n\
        #.###.#.-------------\n\
        #.###.#.-------------\n\
        #.###.#.-------------\n\
        #.....#.-------------\n\
        #######.-------------"
    );
}

#[test]
fn test_draw_alignment_patterns_3() {
    let mut c = Canvas::new(Version::Normal(3), EcLevel::L);
    c.draw_finder_patterns();
    c.draw_alignment_patterns();
    assert_eq!(
        &*to_debug_str(&c),
        "\n\
        #######.-------------.#######\n\
        #.....#.-------------.#.....#\n\
        #.###.#.-------------.#.###.#\n\
        #.###.#.-------------.#.###.#\n\
        #.###.#.-------------.#.###.#\n\
        #.....#.-------------.#.....#\n\
        #######.-------------.#######\n\
        ........-------------........\n\
        -----------------------------\n\
        -----------------------------\n\
        -----------------------------\n\
        -----------------------------\n\
        -----------------------------\n\
        -----------------------------\n\
        -----------------------------\n\
        -----------------------------\n\
        -----------------------------\n\
        -----------------------------\n\
        -----------------------------\n\
        -----------------------------\n\
        --------------------#####----\n\
        ........------------#...#----\n\
        #######.------------#.#.#----\n\
        #.....#.------------#...#----\n\
        #.###.#.------------#####----\n\
        #.###.#.---------------------\n\
        #.###.#.---------------------\n\
        #.....#.---------------------\n\
        #######.---------------------"
    );
}

#[test]
fn test_draw_alignment_patterns_7() {
    let mut c = Canvas::new(Version::Normal(7), EcLevel::L);
    c.draw_finder_patterns();
    c.draw_alignment_patterns();
    assert_eq!(
        &*to_debug_str(&c),
        "\n\
        #######.-----------------------------.#######\n\
        #.....#.-----------------------------.#.....#\n\
        #.###.#.-----------------------------.#.###.#\n\
        #.###.#.-----------------------------.#.###.#\n\
        #.###.#.------------#####------------.#.###.#\n\
        #.....#.------------#...#------------.#.....#\n\
        #######.------------#.#.#------------.#######\n\
        ........------------#...#------------........\n\
        --------------------#####--------------------\n\
        ---------------------------------------------\n\
        ---------------------------------------------\n\
        ---------------------------------------------\n\
        ---------------------------------------------\n\
        ---------------------------------------------\n\
        ---------------------------------------------\n\
        ---------------------------------------------\n\
        ---------------------------------------------\n\
        ---------------------------------------------\n\
        ---------------------------------------------\n\
        ---------------------------------------------\n\
        ----#####-----------#####-----------#####----\n\
        ----#...#-----------#...#-----------#...#----\n\
        ----#.#.#-----------#.#.#-----------#.#.#----\n\
        ----#...#-----------#...#-----------#...#----\n\
        ----#####-----------#####-----------#####----\n\
        ---------------------------------------------\n\
        ---------------------------------------------\n\
        ---------------------------------------------\n\
        ---------------------------------------------\n\
        ---------------------------------------------\n\
        ---------------------------------------------\n\
        ---------------------------------------------\n\
        ---------------------------------------------\n\
        ---------------------------------------------\n\
        ---------------------------------------------\n\
        ---------------------------------------------\n\
        --------------------#####-----------#####----\n\
        ........------------#...#-----------#...#----\n\
        #######.------------#.#.#-----------#.#.#----\n\
        #.....#.------------#...#-----------#...#----\n\
        #.###.#.------------#####-----------#####----\n\
        #.###.#.-------------------------------------\n\
        #.###.#.-------------------------------------\n\
        #.....#.-------------------------------------\n\
        #######.-------------------------------------"
    );
}

#[test]
fn test_draw_timing_patterns_qr() {
    let mut c = Canvas::new(Version::Normal(1), EcLevel::L);
    c.draw_timing_patterns();
    assert_eq!(
        &*to_debug_str(&c),
        "\n\
        ---------------------\n\
        ---------------------\n\
        ---------------------\n\
        ---------------------\n\
        ---------------------\n\
        ---------------------\n\
        --------#.#.#--------\n\
        ---------------------\n\
        ------#--------------\n\
        ------.--------------\n\
        ------#--------------\n\
        ------.--------------\n\
        ------#--------------\n\
        ---------------------\n\
        ---------------------\n\
        ---------------------\n\
        ---------------------\n\
        ---------------------\n\
        ---------------------\n\
        ---------------------\n\
        ---------------------"
    );
}

#[test]
fn test_draw_version_info_1() {
    let mut c = Canvas::new(Version::Normal(1), EcLevel::L);
    c.draw_version_info_patterns();
    assert_eq!(
        &*to_debug_str(&c),
        "\n\
        ---------------------\n\
        ---------------------\n\
        ---------------------\n\
        ---------------------\n\
        ---------------------\n\
        ---------------------\n\
        ---------------------\n\
        ---------------------\n\
        ---------------------\n\
        ---------------------\n\
        ---------------------\n\
        ---------------------\n\
        ---------------------\n\
        ---------------------\n\
        ---------------------\n\
        ---------------------\n\
        ---------------------\n\
        ---------------------\n\
        ---------------------\n\
        ---------------------\n\
        ---------------------"
    );
}

#[test]
fn test_draw_version_info_7() {
    let mut c = Canvas::new(Version::Normal(7), EcLevel::L);
    c.draw_version_info_patterns();

    assert_eq!(
        &*to_debug_str(&c),
        "\n\
        ----------------------------------..#--------\n\
        ----------------------------------.#.--------\n\
        ----------------------------------.#.--------\n\
        ----------------------------------.##--------\n\
        ----------------------------------###--------\n\
        ----------------------------------...--------\n\
        ---------------------------------------------\n\
        ---------------------------------------------\n\
        ---------------------------------------------\n\
        ---------------------------------------------\n\
        ---------------------------------------------\n\
        ---------------------------------------------\n\
        ---------------------------------------------\n\
        ---------------------------------------------\n\
        ---------------------------------------------\n\
        ---------------------------------------------\n\
        ---------------------------------------------\n\
        ---------------------------------------------\n\
        ---------------------------------------------\n\
        ---------------------------------------------\n\
        ---------------------------------------------\n\
        ---------------------------------------------\n\
        ---------------------------------------------\n\
        ---------------------------------------------\n\
        ---------------------------------------------\n\
        ---------------------------------------------\n\
        ---------------------------------------------\n\
        ---------------------------------------------\n\
        ---------------------------------------------\n\
        ---------------------------------------------\n\
        ---------------------------------------------\n\
        ---------------------------------------------\n\
        ---------------------------------------------\n\
        ---------------------------------------------\n\
        ....#.---------------------------------------\n\
        .####.---------------------------------------\n\
        #..##.---------------------------------------\n\
        ---------------------------------------------\n\
        ---------------------------------------------\n\
        ---------------------------------------------\n\
        ---------------------------------------------\n\
        ---------------------------------------------\n\
        ---------------------------------------------\n\
        ---------------------------------------------\n\
        ---------------------------------------------"
    );
}

#[test]
fn test_draw_reserved_format_info_patterns_qr() {
    let mut c = Canvas::new(Version::Normal(1), EcLevel::L);
    c.draw_reserved_format_info_patterns();
    assert_eq!(
        &*to_debug_str(&c),
        "\n\
        --------.------------\n\
        --------.------------\n\
        --------.------------\n\
        --------.------------\n\
        --------.------------\n\
        --------.------------\n\
        ---------------------\n\
        --------.------------\n\
        ......-..----........\n\
        ---------------------\n\
        ---------------------\n\
        ---------------------\n\
        ---------------------\n\
        --------#------------\n\
        --------.------------\n\
        --------.------------\n\
        --------.------------\n\
        --------.------------\n\
        --------.------------\n\
        --------.------------\n\
        --------.------------"
    );
}

#[test]
fn test_all_functional_patterns_qr() {
    let mut c = Canvas::new(Version::Normal(2), EcLevel::L);
    c.draw_all_functional_patterns();
    assert_eq!(
        &*to_debug_str(&c),
        "\n\
        #######..--------.#######\n\
        #.....#..--------.#.....#\n\
        #.###.#..--------.#.###.#\n\
        #.###.#..--------.#.###.#\n\
        #.###.#..--------.#.###.#\n\
        #.....#..--------.#.....#\n\
        #######.#.#.#.#.#.#######\n\
        .........--------........\n\
        ......#..--------........\n\
        ------.------------------\n\
        ------#------------------\n\
        ------.------------------\n\
        ------#------------------\n\
        ------.------------------\n\
        ------#------------------\n\
        ------.------------------\n\
        ------#---------#####----\n\
        ........#-------#...#----\n\
        #######..-------#.#.#----\n\
        #.....#..-------#...#----\n\
        #.###.#..-------#####----\n\
        #.###.#..----------------\n\
        #.###.#..----------------\n\
        #.....#..----------------\n\
        #######..----------------"
    );
}

#[test]
fn test_qr_2() {
    let mut c = Canvas::new(Version::Normal(2), EcLevel::L);
    c.draw_all_functional_patterns();

    c.draw_data(
        b"\x92I$\x92I$\x92I$\x92I$\x92I$\x92I$\x92I$\x92I$\
          \x92I$\x92I$\x92I$\x92I$\x92I$\x92I$\x92I$",
        b"",
    );

    assert_eq!(
        &*to_debug_str(&c),
        "\n\
        #######..--*---*-.#######\n\
        #.....#..-*-*-*-*.#.....#\n\
        #.###.#..*---*---.#.###.#\n\
        #.###.#..--*---*-.#.###.#\n\
        #.###.#..-*-*-*-*.#.###.#\n\
        #.....#..*---*---.#.....#\n\
        #######.#.#.#.#.#.#######\n\
        .........--*---*-........\n\
        ......#..-*-*-*-*........\n\
        --*-*-.-**---*---*--**--*\n\
        -*-*--#----*---*---------\n\
        *----*.*--*-*-*-*-**--**-\n\
        --*-*-#-**---*---*--**--*\n\
        -*-*--.----*---*---------\n\
        *----*#*--*-*-*-*-**--**-\n\
        --*-*-.-**---*---*--**--*\n\
        -*-*--#----*---*#####----\n\
        ........#-*-*-*-#...#-**-\n\
        #######..*---*--#.#.#*--*\n\
        #.....#..--*---*#...#----\n\
        #.###.#..-*-*-*-#####-**-\n\
        #.###.#..*---*--*----*--*\n\
        #.###.#..--*------**-----\n\
        #.....#..-*-*-**-*--*-**-\n\
        #######..*---*--*----*--*"
    );
}

#[test]
fn test_apply_mask_qr() {
    let mut c = Canvas::new(Version::Normal(1), EcLevel::L);
    c.draw_all_functional_patterns();
    c.apply_mask(MaskPattern::Checkerboard);

    assert_eq!(
        &*to_debug_str(&c),
        "\n\
        #######...#.#.#######\n\
        #.....#..#.#..#.....#\n\
        #.###.#.#.#.#.#.###.#\n\
        #.###.#..#.#..#.###.#\n\
        #.###.#...#.#.#.###.#\n\
        #.....#..#.#..#.....#\n\
        #######.#.#.#.#######\n\
        ........##.#.........\n\
        ###.#####.#.###...#..\n\
        .#.#.#.#.#.#.#.#.#.#.\n\
        #.#.#.#.#.#.#.#.#.#.#\n\
        .#.#.#.#.#.#.#.#.#.#.\n\
        #.#.#.#.#.#.#.#.#.#.#\n\
        ........##.#.#.#.#.#.\n\
        #######.#.#.#.#.#.#.#\n\
        #.....#.##.#.#.#.#.#.\n\
        #.###.#.#.#.#.#.#.#.#\n\
        #.###.#..#.#.#.#.#.#.\n\
        #.###.#.#.#.#.#.#.#.#\n\
        #.....#.##.#.#.#.#.#.\n\
        #######.#.#.#.#.#.#.#"
    );
}

#[test]
fn test_draw_format_info_patterns_qr() {
    let mut c = Canvas::new(Version::Normal(1), EcLevel::L);
    c.draw_format_info_patterns(MaskPattern::LargeCheckerboard);
    assert_eq!(
        &*to_debug_str(&c),
        "\n\
        --------#------------\n\
        --------#------------\n\
        --------#------------\n\
        --------#------------\n\
        --------.------------\n\
        --------#------------\n\
        ---------------------\n\
        --------.------------\n\
        ##..##-..----..#.####\n\
        ---------------------\n\
        ---------------------\n\
        ---------------------\n\
        ---------------------\n\
        --------#------------\n\
        --------.------------\n\
        --------#------------\n\
        --------#------------\n\
        --------.------------\n\
        --------.------------\n\
        --------#------------\n\
        --------#------------"
    );
}

#[test]
fn test_all_functional_patterns_v1() {
    // The smallest Normal symbol: finder patterns, reserved format
    // region and timing lines; no alignment pattern and no version
    // information.
    let mut c = Canvas::new(Version::Normal(1), EcLevel::L);
    c.draw_all_functional_patterns();
    assert_eq!(
        &*to_debug_str(&c),
        "\n\
        #######..----.#######\n\
        #.....#..----.#.....#\n\
        #.###.#..----.#.###.#\n\
        #.###.#..----.#.###.#\n\
        #.###.#..----.#.###.#\n\
        #.....#..----.#.....#\n\
        #######.#.#.#.#######\n\
        .........----........\n\
        ......#..----........\n\
        ------.--------------\n\
        ------#--------------\n\
        ------.--------------\n\
        ------#--------------\n\
        ........#------------\n\
        #######..------------\n\
        #.....#..------------\n\
        #.###.#..------------\n\
        #.###.#..------------\n\
        #.###.#..------------\n\
        #.....#..------------\n\
        #######..------------"
    );
}

#[test]
fn test_all_functional_patterns_v7() {
    // The smallest version with version information: six alignment
    // patterns from the three-by-three center grid, and the two
    // version-information blocks.
    let mut c = Canvas::new(Version::Normal(7), EcLevel::L);
    c.draw_all_functional_patterns();
    assert_eq!(
        &*to_debug_str(&c),
        "\n\
        #######..-------------------------..#.#######\n\
        #.....#..-------------------------.#..#.....#\n\
        #.###.#..-------------------------.#..#.###.#\n\
        #.###.#..-------------------------.##.#.###.#\n\
        #.###.#..-----------#####---------###.#.###.#\n\
        #.....#..-----------#...#---------....#.....#\n\
        #######.#.#.#.#.#.#.#.#.#.#.#.#.#.#.#.#######\n\
        .........-----------#...#------------........\n\
        ......#..-----------#####------------........\n\
        ------.--------------------------------------\n\
        ------#--------------------------------------\n\
        ------.--------------------------------------\n\
        ------#--------------------------------------\n\
        ------.--------------------------------------\n\
        ------#--------------------------------------\n\
        ------.--------------------------------------\n\
        ------#--------------------------------------\n\
        ------.--------------------------------------\n\
        ------#--------------------------------------\n\
        ------.--------------------------------------\n\
        ----#####-----------#####-----------#####----\n\
        ----#...#-----------#...#-----------#...#----\n\
        ----#.#.#-----------#.#.#-----------#.#.#----\n\
        ----#...#-----------#...#-----------#...#----\n\
        ----#####-----------#####-----------#####----\n\
        ------.--------------------------------------\n\
        ------#--------------------------------------\n\
        ------.--------------------------------------\n\
        ------#--------------------------------------\n\
        ------.--------------------------------------\n\
        ------#--------------------------------------\n\
        ------.--------------------------------------\n\
        ------#--------------------------------------\n\
        ------.--------------------------------------\n\
        ....#.#--------------------------------------\n\
        .####..--------------------------------------\n\
        #..##.#-------------#####-----------#####----\n\
        ........#-----------#...#-----------#...#----\n\
        #######..-----------#.#.#-----------#.#.#----\n\
        #.....#..-----------#...#-----------#...#----\n\
        #.###.#..-----------#####-----------#####----\n\
        #.###.#..------------------------------------\n\
        #.###.#..------------------------------------\n\
        #.....#..------------------------------------\n\
        #######..------------------------------------"
    );
}

#[test]
fn test_all_functional_patterns_micro_qr() {
    let mut c = Canvas::new(Version::Micro(1), EcLevel::L);
    c.draw_all_functional_patterns();
    assert_eq!(
        &*to_debug_str(&c),
        "\n\
        #######.#.#\n\
        #.....#..--\n\
        #.###.#..--\n\
        #.###.#..--\n\
        #.###.#..--\n\
        #.....#..--\n\
        #######..--\n\
        .........--\n\
        #........--\n\
        .----------\n\
        #----------"
    );
}

#[test]
fn test_micro_qr_1() {
    // A Micro symbol whose final data codeword carries only four bits.
    let mut c = Canvas::new(Version::Micro(1), EcLevel::L);
    c.draw_all_functional_patterns();
    c.draw_data(b"\x6e\x5d\xe2", b"\x2b\x63");
    assert_eq!(
        &*to_debug_str(&c),
        "\n\
        #######.#.#\n\
        #.....#..-*\n\
        #.###.#..**\n\
        #.###.#..*-\n\
        #.###.#..**\n\
        #.....#..*-\n\
        #######..*-\n\
        .........-*\n\
        #........**\n\
        .***-**---*\n\
        #---*-*-**-"
    );
}

#[test]
fn test_draw_format_info_patterns_micro_qr() {
    let mut c = Canvas::new(Version::Micro(2), EcLevel::L);
    c.draw_format_info_patterns(MaskPattern::LargeCheckerboard);
    assert_eq!(
        &*to_debug_str(&c),
        "\n\
        -------------\n\
        --------#----\n\
        --------.----\n\
        --------.----\n\
        --------#----\n\
        --------#----\n\
        --------.----\n\
        --------.----\n\
        -#.#....#----\n\
        -------------\n\
        -------------\n\
        -------------\n\
        -------------"
    );
}

#[test]
fn test_penalty_score_light_sides() {
    static HORIZONTAL_SIDE: [Color; 17] = [
        Color::Dark,
        Color::Light,
        Color::Light,
        Color::Dark,
        Color::Dark,
        Color::Dark,
        Color::Light,
        Color::Light,
        Color::Dark,
        Color::Light,
        Color::Dark,
        Color::Light,
        Color::Light,
        Color::Dark,
        Color::Light,
        Color::Light,
        Color::Light,
    ];
    static VERTICAL_SIDE: [Color; 17] = [
        Color::Dark,
        Color::Dark,
        Color::Dark,
        Color::Light,
        Color::Light,
        Color::Dark,
        Color::Dark,
        Color::Light,
        Color::Dark,
        Color::Light,
        Color::Dark,
        Color::Light,
        Color::Dark,
        Color::Light,
        Color::Light,
        Color::Dark,
        Color::Light,
    ];

    let mut c = Canvas::new(Version::Micro(4), EcLevel::Q);
    for i in 0i16..17 {
        c.put(i, -1, HORIZONTAL_SIDE[i as usize]);
        c.put(-1, i, VERTICAL_SIDE[i as usize]);
    }

    assert_eq!(c.compute_light_side_penalty_score(), 168);
}
