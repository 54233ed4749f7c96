use qrcode::types::Version;
use qrcode::walk::DataModuleIter;

/// Drains the walk into a list of coordinates.
fn collect_walk(version: Version) -> Vec<(i16, i16)> {
    let mut it = DataModuleIter::new(version);
    let mut res = Vec::new();
    while let Some(p) = it.next() {
        res.push(p);
    }
    res
}

#[test]
fn canvas_test_qr() {
    let res = collect_walk(Version::Normal(1));
    assert_eq!(res, vec![
        (20, 20), (19, 20), (20, 19), (19, 19), (20, 18), (19, 18),
        (20, 17), (19, 17), (20, 16), (19, 16), (20, 15), (19, 15),
        (20, 14), (19, 14), (20, 13), (19, 13), (20, 12), (19, 12),
        (20, 11), (19, 11), (20, 10), (19, 10), (20, 9), (19, 9),
        (20, 8), (19, 8), (20, 7), (19, 7), (20, 6), (19, 6),
        (20, 5), (19, 5), (20, 4), (19, 4), (20, 3), (19, 3),
        (20, 2), (19, 2), (20, 1), (19, 1), (20, 0), (19, 0),

        (18, 0), (17, 0), (18, 1), (17, 1), (18, 2), (17, 2),
        (18, 3), (17, 3), (18, 4), (17, 4), (18, 5), (17, 5),
        (18, 6), (17, 6), (18, 7), (17, 7), (18, 8), (17, 8),
        (18, 9), (17, 9), (18, 10), (17, 10), (18, 11), (17, 11),
        (18, 12), (17, 12), (18, 13), (17, 13), (18, 14), (17, 14),
        (18, 15), (17, 15), (18, 16), (17, 16), (18, 17), (17, 17),
        (18, 18), (17, 18), (18, 19), (17, 19), (18, 20), (17, 20),

        (16, 20), (15, 20), (16, 19), (15, 19), (16, 18), (15, 18),
        (16, 17), (15, 17), (16, 16), (15, 16), (16, 15), (15, 15),
        (16, 14), (15, 14), (16, 13), (15, 13), (16, 12), (15, 12),
        (16, 11), (15, 11), (16, 10), (15, 10), (16, 9), (15, 9),
        (16, 8), (15, 8), (16, 7), (15, 7), (16, 6), (15, 6),
        (16, 5), (15, 5), (16, 4), (15, 4), (16, 3), (15, 3),
        (16, 2), (15, 2), (16, 1), (15, 1), (16, 0), (15, 0),

        (14, 0), (13, 0), (14, 1), (13, 1), (14, 2), (13, 2),
        (14, 3), (13, 3), (14, 4), (13, 4), (14, 5), (13, 5),
        (14, 6), (13, 6), (14, 7), (13, 7), (14, 8), (13, 8),
        (14, 9), (13, 9), (14, 10), (13, 10), (14, 11), (13, 11),
        (14, 12), (13, 12), (14, 13), (13, 13), (14, 14), (13, 14),
        (14, 15), (13, 15), (14, 16), (13, 16), (14, 17), (13, 17),
        (14, 18), (13, 18), (14, 19), (13, 19), (14, 20), (13, 20),

        (12, 20), (11, 20), (12, 19), (11, 19), (12, 18), (11, 18),
        (12, 17), (11, 17), (12, 16), (11, 16), (12, 15), (11, 15),
        (12, 14), (11, 14), (12, 13), (11, 13), (12, 12), (11, 12),
        (12, 11), (11, 11), (12, 10), (11, 10), (12, 9), (11, 9),
        (12, 8), (11, 8), (12, 7), (11, 7), (12, 6), (11, 6),
        (12, 5), (11, 5), (12, 4), (11, 4), (12, 3), (11, 3),
        (12, 2), (11, 2), (12, 1), (11, 1), (12, 0), (11, 0),

        (10, 0), (9, 0), (10, 1), (9, 1), (10, 2), (9, 2),
        (10, 3), (9, 3), (10, 4), (9, 4), (10, 5), (9, 5),
        (10, 6), (9, 6), (10, 7), (9, 7), (10, 8), (9, 8),
        (10, 9), (9, 9), (10, 10), (9, 10), (10, 11), (9, 11),
        (10, 12), (9, 12), (10, 13), (9, 13), (10, 14), (9, 14),
        (10, 15), (9, 15), (10, 16), (9, 16), (10, 17), (9, 17),
        (10, 18), (9, 18), (10, 19), (9, 19), (10, 20), (9, 20),

        (8, 20), (7, 20), (8, 19), (7, 19), (8, 18), (7, 18),
        (8, 17), (7, 17), (8, 16), (7, 16), (8, 15), (7, 15),
        (8, 14), (7, 14), (8, 13), (7, 13), (8, 12), (7, 12),
        (8, 11), (7, 11), (8, 10), (7, 10), (8, 9), (7, 9),
        (8, 8), (7, 8), (8, 7), (7, 7), (8, 6), (7, 6),
        (8, 5), (7, 5), (8, 4), (7, 4), (8, 3), (7, 3),
        (8, 2), (7, 2), (8, 1), (7, 1), (8, 0), (7, 0),

        (5, 0), (4, 0), (5, 1), (4, 1), (5, 2), (4, 2),
        (5, 3), (4, 3), (5, 4), (4, 4), (5, 5), (4, 5),
        (5, 6), (4, 6), (5, 7), (4, 7), (5, 8), (4, 8),
        (5, 9), (4, 9), (5, 10), (4, 10), (5, 11), (4, 11),
        (5, 12), (4, 12), (5, 13), (4, 13), (5, 14), (4, 14),
        (5, 15), (4, 15), (5, 16), (4, 16), (5, 17), (4, 17),
        (5, 18), (4, 18), (5, 19), (4, 19), (5, 20), (4, 20),

        (3, 20), (2, 20), (3, 19), (2, 19), (3, 18), (2, 18),
        (3, 17), (2, 17), (3, 16), (2, 16), (3, 15), (2, 15),
        (3, 14), (2, 14), (3, 13), (2, 13), (3, 12), (2, 12),
        (3, 11), (2, 11), (3, 10), (2, 10), (3, 9), (2, 9),
        (3, 8), (2, 8), (3, 7), (2, 7), (3, 6), (2, 6),
        (3, 5), (2, 5), (3, 4), (2, 4), (3, 3), (2, 3),
        (3, 2), (2, 2), (3, 1), (2, 1), (3, 0), (2, 0),

        (1, 0), (0, 0), (1, 1), (0, 1), (1, 2), (0, 2),
        (1, 3), (0, 3), (1, 4), (0, 4), (1, 5), (0, 5),
        (1, 6), (0, 6), (1, 7), (0, 7), (1, 8), (0, 8),
        (1, 9), (0, 9), (1, 10), (0, 10), (1, 11), (0, 11),
        (1, 12), (0, 12), (1, 13), (0, 13), (1, 14), (0, 14),
        (1, 15), (0, 15), (1, 16), (0, 16), (1, 17), (0, 17),
        (1, 18), (0, 18), (1, 19), (0, 19), (1, 20), (0, 20),
    ]);
}

#[test]
fn test_micro_qr() {
    let res = collect_walk(Version::Micro(1));
    assert_eq!(res, vec![
        (10, 10), (9, 10), (10, 9), (9, 9), (10, 8), (9, 8),
        (10, 7), (9, 7), (10, 6), (9, 6), (10, 5), (9, 5),
        (10, 4), (9, 4), (10, 3), (9, 3), (10, 2), (9, 2),
        (10, 1), (9, 1), (10, 0), (9, 0),

        (8, 0), (7, 0), (8, 1), (7, 1), (8, 2), (7, 2),
        (8, 3), (7, 3), (8, 4), (7, 4), (8, 5), (7, 5),
        (8, 6), (7, 6), (8, 7), (7, 7), (8, 8), (7, 8),
        (8, 9), (7, 9), (8, 10), (7, 10),

        (6, 10), (5, 10), (6, 9), (5, 9), (6, 8), (5, 8),
        (6, 7), (5, 7), (6, 6), (5, 6), (6, 5), (5, 5),
        (6, 4), (5, 4), (6, 3), (5, 3), (6, 2), (5, 2),
        (6, 1), (5, 1), (6, 0), (5, 0),

        (4, 0), (3, 0), (4, 1), (3, 1), (4, 2), (3, 2),
        (4, 3), (3, 3), (4, 4), (3, 4), (4, 5), (3, 5),
        (4, 6), (3, 6), (4, 7), (3, 7), (4, 8), (3, 8),
        (4, 9), (3, 9), (4, 10), (3, 10),

        (2, 10), (1, 10), (2, 9), (1, 9), (2, 8), (1, 8),
        (2, 7), (1, 7), (2, 6), (1, 6), (2, 5), (1, 5),
        (2, 4), (1, 4), (2, 3), (1, 3), (2, 2), (1, 2),
        (2, 1), (1, 1), (2, 0), (1, 0),
    ]);
}

#[test]
fn test_micro_qr_2() {
    let res = collect_walk(Version::Micro(2));
    assert_eq!(res, vec![
        (12, 12), (11, 12), (12, 11), (11, 11), (12, 10), (11, 10),
        (12, 9), (11, 9), (12, 8), (11, 8), (12, 7), (11, 7),
        (12, 6), (11, 6), (12, 5), (11, 5), (12, 4), (11, 4),
        (12, 3), (11, 3), (12, 2), (11, 2), (12, 1), (11, 1),
        (12, 0), (11, 0),

        (10, 0), (9, 0), (10, 1), (9, 1), (10, 2), (9, 2),
        (10, 3), (9, 3), (10, 4), (9, 4), (10, 5), (9, 5),
        (10, 6), (9, 6), (10, 7), (9, 7), (10, 8), (9, 8),
        (10, 9), (9, 9), (10, 10), (9, 10), (10, 11), (9, 11),
        (10, 12), (9, 12),

        (8, 12), (7, 12), (8, 11), (7, 11), (8, 10), (7, 10),
        (8, 9), (7, 9), (8, 8), (7, 8), (8, 7), (7, 7),
        (8, 6), (7, 6), (8, 5), (7, 5), (8, 4), (7, 4),
        (8, 3), (7, 3), (8, 2), (7, 2), (8, 1), (7, 1),
        (8, 0), (7, 0),

        (6, 0), (5, 0), (6, 1), (5, 1), (6, 2), (5, 2),
        (6, 3), (5, 3), (6, 4), (5, 4), (6, 5), (5, 5),
        (6, 6), (5, 6), (6, 7), (5, 7), (6, 8), (5, 8),
        (6, 9), (5, 9), (6, 10), (5, 10), (6, 11), (5, 11),
        (6, 12), (5, 12),

        (4, 12), (3, 12), (4, 11), (3, 11), (4, 10), (3, 10),
        (4, 9), (3, 9), (4, 8), (3, 8), (4, 7), (3, 7),
        (4, 6), (3, 6), (4, 5), (3, 5), (4, 4), (3, 4),
        (4, 3), (3, 3), (4, 2), (3, 2), (4, 1), (3, 1),
        (4, 0), (3, 0),

        (2, 0), (1, 0), (2, 1), (1, 1), (2, 2), (1, 2),
        (2, 3), (1, 3), (2, 4), (1, 4), (2, 5), (1, 5),
        (2, 6), (1, 6), (2, 7), (1, 7), (2, 8), (1, 8),
        (2, 9), (1, 9), (2, 10), (1, 10), (2, 11), (1, 11),
        (2, 12), (1, 12),
    ]);
}

#[test]
fn test_walk_visits_each_data_column_cell_once() {
    // The walk emits every cell off the vertical timing column exactly
    // once, for a Normal and a Micro symbol.
    for version in [Version::Normal(2), Version::Micro(3)] {
        let w = version.width();
        let tc = match version {
            Version::Normal(_) => 6,
            Version::Micro(_) => 0,
        };
        let res = collect_walk(version);
        assert_eq!(res.len(), (w as usize) * (w as usize - 1));
        let mut seen = vec![false; (w as usize) * (w as usize)];
        for (x, y) in res {
            assert!(x != tc);
            let idx = (y as usize) * (w as usize) + x as usize;
            assert!(!seen[idx]);
            seen[idx] = true;
        }
        for x in 0..w as usize {
            for y in 0..w as usize {
                assert_eq!(seen[y * w as usize + x], x != tc as usize);
            }
        }
    }
}
