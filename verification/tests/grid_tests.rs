use gridded_automata::automata::{
    automata_from_luma, random_automata, random_automata_with_padding, Automata, Size,
};
use gridded_automata::cells::{rand_cells, Cells};
use gridded_automata::pgm::{has_pgm_extension, parse_pgm, PgmError};

#[test]
fn new_grid_is_zero_filled() {
    let size = Size { width: 3, height: 2 };
    let a = Automata::new(size);
    assert_eq!(a.data.len(), 6);
    for x in 0..3 {
        for y in 0..2 {
            assert_eq!(a.get(x, y), 0);
        }
    }
}

#[test]
fn row_major_indexing_is_unique() {
    let size = Size { width: 4, height: 3 };
    let mut a = Automata::new(size);
    // Give every cell a distinct state through (x, y) addressing.
    for x in 0..4 {
        for y in 0..3 {
            a.set(x, y, 100 + x + y * 4);
        }
    }
    // Every index was hit exactly once, at x + y*width.
    for x in 0..4u32 {
        for y in 0..3u32 {
            assert_eq!(a.get(x, y), 100 + x + y * 4);
            assert_eq!(a.data[(x + y * 4) as usize], 100 + x + y * 4);
        }
    }
}

#[test]
fn random_grid_draws_from_given_states() {
    let size = Size { width: 8, height: 5 };
    let states = [0u32, 3, 9];
    let a = random_automata(size, &states);
    assert_eq!(a.data.len(), 40);
    for x in 0..8 {
        for y in 0..5 {
            assert!(states.contains(&a.get(x, y)));
        }
    }
}

#[test]
fn random_grid_padding_leaves_zero_border() {
    let size = Size { width: 10, height: 6 };
    let a = random_automata_with_padding(size, &[5], 2);
    for x in 0..10u32 {
        for y in 0..6u32 {
            let interior = (2..8).contains(&x) && (2..4).contains(&y);
            if interior {
                assert_eq!(a.get(x, y), 5);
            } else {
                assert_eq!(a.get(x, y), 0);
            }
        }
    }
}

#[test]
fn rand_cells_are_binary() {
    let c = rand_cells(gridded_automata::cells::Size { height: 7, width: 4 });
    assert_eq!(c.data.len(), 28);
    for v in c.data.iter() {
        assert!(*v <= 1);
    }
}

#[test]
fn zeroed_cells() {
    let c = Cells::new(gridded_automata::cells::Size { height: 2, width: 2 });
    assert_eq!(c.data, vec![0, 0, 0, 0]);
}

#[test]
fn luma_grid_assigns_first_seen_ids() {
    // Row-major pixels of a 2x2 image; the traversal is column-major, so
    // value 5 at (0,0) gets id 0 and value 7 at (0,1) gets id 1.
    let size = Size { width: 2, height: 2 };
    let pixels = vec![5u8, 5, 7, 5];
    let (a, dict) = automata_from_luma(size, &pixels);
    assert_eq!(dict, vec![(5, 0), (7, 1)]);
    assert_eq!(a.get(0, 0), 0);
    assert_eq!(a.get(1, 0), 0);
    assert_eq!(a.get(0, 1), 1);
    assert_eq!(a.get(1, 1), 0);
}

#[test]
fn luma_grid_id_order_follows_encounters() {
    // Three distinct values, first seen in the order 9, 4, 6.
    let size = Size { width: 3, height: 1 };
    let pixels = vec![9u8, 4, 6];
    let (a, dict) = automata_from_luma(size, &pixels);
    assert_eq!(dict, vec![(9, 0), (4, 1), (6, 2)]);
    assert_eq!(a.get(0, 0), 0);
    assert_eq!(a.get(1, 0), 1);
    assert_eq!(a.get(2, 0), 2);
}

#[test]
fn pgm_extension_check() {
    assert!(has_pgm_extension("grid.pgm"));
    assert!(has_pgm_extension("./a/b.pgm"));
    assert!(!has_pgm_extension("grid.png"));
    assert!(!has_pgm_extension("pgm"));
    assert!(!has_pgm_extension(""));
}

#[test]
fn pgm_ascii_roundtrip() {
    let a = parse_pgm(b"P2\n3 2\n255\n0 1 2\n3 4 5\n").unwrap();
    assert_eq!(a.size, Size { width: 3, height: 2 });
    assert_eq!(a.data, vec![0, 1, 2, 3, 4, 5]);
}

#[test]
fn pgm_ascii_with_comments() {
    let bytes = b"P2 # the format tag\n# a full comment line\n2 2 # dimensions\n15\n9 8\n7 6\n";
    let a = parse_pgm(bytes).unwrap();
    assert_eq!(a.size, Size { width: 2, height: 2 });
    assert_eq!(a.data, vec![9, 8, 7, 6]);
}

#[test]
fn pgm_binary_roundtrip() {
    let a = parse_pgm(b"P5 2 1 255 \x05\x09").unwrap();
    assert_eq!(a.size, Size { width: 2, height: 1 });
    assert_eq!(a.data, vec![5, 9]);
}

#[test]
fn pgm_bad_magic() {
    assert_eq!(parse_pgm(b"P3 2 2 255 0 0 0 0").unwrap_err(), PgmError::BadMagic);
    assert_eq!(parse_pgm(b"").unwrap_err(), PgmError::BadMagic);
    assert_eq!(parse_pgm(b"# only a comment\n").unwrap_err(), PgmError::BadMagic);
}

#[test]
fn pgm_bad_dimensions() {
    assert_eq!(parse_pgm(b"P2 x 2 255 0 0").unwrap_err(), PgmError::BadDimensions);
    assert_eq!(parse_pgm(b"P2 0 2 255").unwrap_err(), PgmError::BadDimensions);
    assert_eq!(parse_pgm(b"P2 2").unwrap_err(), PgmError::BadDimensions);
    // An area beyond 32-bit addressing is rejected.
    assert_eq!(
        parse_pgm(b"P2 100000 100000 255").unwrap_err(),
        PgmError::BadDimensions
    );
}

#[test]
fn pgm_bad_maxval() {
    assert_eq!(parse_pgm(b"P2 2 2 abc 0 0 0 0").unwrap_err(), PgmError::BadMaxval);
    assert_eq!(parse_pgm(b"P2 2 2").unwrap_err(), PgmError::BadMaxval);
}

#[test]
fn pgm_bad_sample() {
    assert_eq!(parse_pgm(b"P2 1 2 255 1 two").unwrap_err(), PgmError::BadSample);
}

#[test]
fn pgm_truncated() {
    assert_eq!(parse_pgm(b"P2 2 2 255 1 2 3").unwrap_err(), PgmError::Truncated);
    assert_eq!(parse_pgm(b"P5 2 2 255 \x01").unwrap_err(), PgmError::Truncated);
    assert_eq!(parse_pgm(b"P5 2 2 255").unwrap_err(), PgmError::Truncated);
}

#[test]
fn size_tuple_conversions() {
    let size = Size::from((3u32, 4u32));
    assert_eq!(size, Size { width: 3, height: 4 });
    let pair: (u32, u32) = size.into();
    assert_eq!(pair, (3, 4));
}
