use score_four::BitBoard;

#[test]
fn row_of_four_is_a_line_but_scattered_bits_are_not() {
    // Four adjacent bits of one row in one level.
    assert!(BitBoard::new(0b1111).lined());
    // The same number of bits spread over different rows and columns.
    assert!(!BitBoard::new(0b1_0111).lined());
}

#[test]
fn every_row_family_mask_is_detected() {
    for level in 0..4u64 {
        for y in 0..4u64 {
            let mask = 0xfu64 << (16 * level + 4 * y);
            assert!(BitBoard::new(mask).lined());
            assert!(BitBoard::new(mask).row_lined());
        }
    }
}

#[test]
fn every_column_family_mask_is_detected() {
    for level in 0..4u64 {
        for x in 0..4u64 {
            let mask = 0x1111u64 << (16 * level + x);
            assert!(BitBoard::new(mask).lined());
            assert!(BitBoard::new(mask).column_lined());
        }
    }
}

#[test]
fn every_vertical_stack_mask_is_detected() {
    for pos in 0..16u8 {
        let mask = BitBoard::line_at_pos(pos);
        assert!(BitBoard::new(mask.0).lined());
        assert!(BitBoard::new(mask.0).level_lined());
    }
}

#[test]
fn every_in_level_diagonal_mask_is_detected() {
    for level in 0..4u64 {
        for base in [0x8421u64, 0x1248u64] {
            let mask = base << (16 * level);
            assert!(BitBoard::new(mask).lined());
        }
    }
}

#[test]
fn every_cross_level_diagonal_mask_is_detected() {
    // Diagonals in vertical planes of fixed y.
    for y in 0..4u64 {
        for base in [0x0008_0004_0002_0001u64, 0x0001_0002_0004_0008u64] {
            let mask = base << (4 * y);
            assert!(BitBoard::new(mask).lined());
        }
    }
    // Diagonals in vertical planes of fixed x.
    for x in 0..4u64 {
        for base in [0x1000_0100_0010_0001u64, 0x0001_0010_0100_1000u64] {
            let mask = base << x;
            assert!(BitBoard::new(mask).lined());
        }
    }
}

#[test]
fn every_space_diagonal_mask_is_detected() {
    let masks = [
        0x8000_0400_0020_0001u64,
        0x0001_0020_0400_8000u64,
        0x1000_0200_0040_0008u64,
        0x0008_0040_0200_1000u64,
    ];
    for mask in masks {
        assert!(BitBoard::new(mask).lined());
    }
}

#[test]
fn three_beads_of_a_line_are_not_a_line() {
    // Each family mask with its topmost bit cleared.
    let almost = [
        0b0111u64,                                       // row
        0x0111u64,                                       // in-plane column
        0x0000_0001_0001_0001u64,                        // vertical stack
        0x0421u64,                                       // in-level diagonal
        0x0004_0002_0001u64,                             // cross-level diagonal
        0x0000_0400_0020_0001u64,                        // space diagonal
    ];
    for mask in almost {
        assert!(!BitBoard::new(mask).lined());
    }
}

#[test]
fn counts_and_levels() {
    assert_eq!(BitBoard::new(0).popcnt(), 0);
    assert_eq!(BitBoard::new(u64::MAX).popcnt(), 64);
    assert_eq!(BitBoard::new(0b1000_1000_1000_1000).popcnt(), 4);

    let b = BitBoard::new(0x0001_0001_0001_0001);
    assert_eq!(b.get_level_at(0), 4);
    assert_eq!(b.get_level_at(1), 0);

    // Column 3 occupied on levels 0 and 1 only.
    let b = BitBoard::new((1 << 3) | (1 << 19));
    assert_eq!(b.get_level_at(3), 2);
    assert_eq!(b.popcnt(), 2);

    assert_eq!(BitBoard::line_at_pos(1).0, 0x0002_0002_0002_0002);
}
