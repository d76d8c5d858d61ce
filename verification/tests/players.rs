use score_four::{Board, BoardStatus, Color, Organizer, Player, PlayerMC, PlayerRandom};

#[test]
fn random_player_returns_a_legal_action() {
    let board = Board::new();
    let player = PlayerRandom::new(Color::White);
    for _ in 0..32 {
        let action = player.step(&board);
        assert!(action.position() < 16);
    }
}

#[test]
fn random_player_takes_an_immediate_win() {
    // White already holds three beads in column 0; dropping a fourth wins.
    let mut board = Board::new();
    board.put(0).unwrap(); // White
    board.put(1).unwrap(); // Black
    board.put(0).unwrap(); // White
    board.put(1).unwrap(); // Black
    board.put(0).unwrap(); // White
    board.put(2).unwrap(); // Black
    assert_eq!(board.side_to_move(), Color::White);
    assert_eq!(board.status(), BoardStatus::Ongoing);

    let player = PlayerRandom::new(Color::White);
    for _ in 0..8 {
        let action = player.step(&board);
        assert_eq!(action.position(), 0);
    }

    let mut scratch = board;
    scratch.step(player.step(&board)).unwrap();
    assert_eq!(scratch.status(), BoardStatus::WhiteWin);
}

#[test]
fn random_player_takes_the_first_of_two_wins() {
    // White holds three beads in columns 2 and 5: both win at once, and
    // the lower column index must be chosen.
    let mut board = Board::new();
    let moves = [2u8, 0, 2, 0, 2, 0, 5, 1, 5, 1, 5, 1];
    for m in moves {
        board.put(m).unwrap();
    }
    assert_eq!(board.side_to_move(), Color::White);
    assert_eq!(board.status(), BoardStatus::Ongoing);

    let player = PlayerRandom::new(Color::White);
    for _ in 0..8 {
        assert_eq!(player.step(&board).position(), 2);
    }
}

#[test]
fn monte_carlo_player_returns_a_legal_action() {
    let board = Board::new();
    let player = PlayerMC::new(Color::White);
    let action = player.step(&board);
    assert!(action.position() < 16);
}

#[test]
fn monte_carlo_player_takes_an_immediate_win() {
    // Column 0 wins at once for White; every rollout from that move
    // scores a win, and no later column can strictly beat that score.
    let mut board = Board::new();
    board.put(0).unwrap();
    board.put(1).unwrap();
    board.put(0).unwrap();
    board.put(1).unwrap();
    board.put(0).unwrap();
    board.put(2).unwrap();

    let player = PlayerMC::new(Color::White);
    let action = player.step(&board);
    assert_eq!(action.position(), 0);
}

#[test]
fn organizer_runs_a_match_to_completion_and_resets() {
    let white = PlayerRandom::new(Color::White);
    let black = PlayerRandom::new(Color::Black);
    let mut organizer = Organizer::new(white, black);
    organizer.start();
    organizer.reset();
    organizer.start();
}

#[test]
fn color_helpers() {
    assert_eq!(Color::White.to_index(), 0);
    assert_eq!(Color::Black.to_index(), 1);
    assert_eq!(Color::White.opposite(), Color::Black);
    assert_eq!(Color::Black.opposite(), Color::White);
}

#[test]
fn action_round_trip() {
    let a = score_four::Action::new(11);
    assert_eq!(a.position(), 11);
}
