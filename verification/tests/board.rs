use score_four::{Board, BoardStatus, Color, PutError};

#[test]
fn test_board_put() {
    let mut b = Board::new();

    assert_eq!(b.put(0).unwrap(), 1);
    assert_eq!(b.put(0).unwrap(), 2);
    assert_eq!(b.put(0).unwrap(), 3);
    assert_eq!(b.put(0).unwrap(), 4);

    assert_eq!(b.combined().popcnt(), 4);
    assert_eq!(b.side_to_move(), Color::White);
    assert!(b.put(0).is_err());
    assert_eq!(b.side_to_move(), Color::White);

    assert_eq!(b.put(1).unwrap(), 1);
    assert_eq!(b.put(2).unwrap(), 1);
    assert_eq!(b.put(3).unwrap(), 1);
    assert_eq!(b.put(4).unwrap(), 1);

    assert_eq!(b.combined().popcnt(), 8);

    assert!(b.put(16).is_err());
}

#[test]
fn full_column_rejected_and_board_unchanged() {
    let mut b = Board::new();
    for _ in 0..4 {
        b.put(5).unwrap();
    }
    let combined_before = b.combined();
    let side_before = b.side_to_move();
    assert_eq!(b.put(5), Err(PutError::ColumnFull));
    assert_eq!(b.combined(), combined_before);
    assert_eq!(b.side_to_move(), side_before);
}

#[test]
fn out_of_range_rejected_and_board_unchanged() {
    let mut b = Board::new();
    b.put(3).unwrap();
    let combined_before = b.combined();
    let side_before = b.side_to_move();
    assert_eq!(b.put(16), Err(PutError::InvalidPosition));
    assert_eq!(b.put(255), Err(PutError::InvalidPosition));
    assert_eq!(b.combined(), combined_before);
    assert_eq!(b.side_to_move(), side_before);
}

#[test]
fn side_toggles_exactly_on_success() {
    let mut b = Board::new();
    assert_eq!(b.side_to_move(), Color::White);
    assert!(b.put(0).is_ok());
    assert_eq!(b.side_to_move(), Color::Black);
    assert!(b.put(16).is_err());
    assert_eq!(b.side_to_move(), Color::Black);
    assert!(b.put(1).is_ok());
    assert_eq!(b.side_to_move(), Color::White);
}

#[test]
fn one_column_stacks_to_four_then_overflows() {
    let mut b = Board::new();
    assert_eq!(b.put(9).unwrap(), 1);
    assert_eq!(b.put(9).unwrap(), 2);
    assert_eq!(b.put(9).unwrap(), 3);
    assert_eq!(b.put(9).unwrap(), 4);
    assert_eq!(b.put(9), Err(PutError::ColumnFull));
}

#[test]
fn possible_actions_shrinks_only_when_a_column_fills() {
    let mut b = Board::new();
    let actions = b.possible_actions();
    assert_eq!(actions.len(), 16);
    for (k, a) in actions.iter().enumerate() {
        assert_eq!(a.position() as usize, k);
    }

    b.put(7).unwrap();
    b.put(7).unwrap();
    b.put(7).unwrap();
    assert_eq!(b.possible_actions().len(), 16);

    b.put(7).unwrap();
    let actions = b.possible_actions();
    assert_eq!(actions.len(), 15);
    assert!(actions.iter().all(|a| a.position() != 7));
}

#[test]
fn vertical_stack_wins_for_white() {
    let mut b = Board::new();
    for _ in 0..3 {
        assert_eq!(b.status(), BoardStatus::Ongoing);
        b.put(1).unwrap();
        assert_eq!(b.status(), BoardStatus::Ongoing);
        b.put(2).unwrap();
    }
    assert_eq!(b.status(), BoardStatus::Ongoing);
    b.put(1).unwrap();
    assert_eq!(b.status(), BoardStatus::WhiteWin);
}

#[test]
fn row_wins_for_white() {
    let mut b = Board::new();
    b.put(0).unwrap();
    b.put(4).unwrap();
    b.put(1).unwrap();
    b.put(5).unwrap();
    b.put(2).unwrap();
    b.put(6).unwrap();
    assert_eq!(b.status(), BoardStatus::Ongoing);
    b.put(3).unwrap();
    assert_eq!(b.status(), BoardStatus::WhiteWin);
}

#[test]
fn row_wins_for_black() {
    let mut b = Board::new();
    b.put(0).unwrap();
    b.put(5).unwrap();
    b.put(0).unwrap();
    b.put(6).unwrap();
    b.put(1).unwrap();
    b.put(7).unwrap();
    b.put(1).unwrap();
    assert_eq!(b.status(), BoardStatus::Ongoing);
    b.put(4).unwrap();
    assert_eq!(b.status(), BoardStatus::BlackWin);
}

#[test]
fn in_level_diagonal_wins_for_white() {
    // White claims the footprint diagonal of level 0: columns 0, 5, 10, 15.
    let mut b = Board::new();
    b.put(0).unwrap();
    b.put(1).unwrap();
    b.put(5).unwrap();
    b.put(2).unwrap();
    b.put(10).unwrap();
    b.put(3).unwrap();
    assert_eq!(b.status(), BoardStatus::Ongoing);
    b.put(15).unwrap();
    assert_eq!(b.status(), BoardStatus::WhiteWin);
}

#[test]
fn status_is_stable_without_mutation() {
    let mut b = Board::new();
    assert_eq!(b.status(), b.status());
    b.put(0).unwrap();
    b.put(1).unwrap();
    let s = b.status();
    for _ in 0..5 {
        assert_eq!(b.status(), s);
    }
}

#[test]
fn default_board_is_empty_and_white_moves() {
    let b = Board::default();
    assert_eq!(b.combined().popcnt(), 0);
    assert_eq!(b.side_to_move(), Color::White);
    assert_eq!(b.status(), BoardStatus::Ongoing);
    assert_eq!(b.possible_actions().len(), 16);
}
