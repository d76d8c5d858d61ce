use vstd::prelude::*;

use crate::bitboard::{lemma_pop_up_to_bound, popcount};
use crate::board::{Board, BoardStatus};
use crate::color::Color;
use crate::player::Player;

verus! {

/// Drives a match between two agents: it alternately asks the agent of
/// the color to move for an action, applies it, and on a terminal board
/// lets both agents observe the outcome.
pub struct Organizer<T1: Player, T2: Player> {
    player_white: T1,
    player_black: T2,
    board: Board,
    turn: Color,
}

impl<T1: Player, T2: Player> Organizer<T1, T2> {
    /// The match's board.
    pub closed spec fn spec_board(self) -> Board {
        self.board
    }

    /// The organizer's own turn tracker.
    pub closed spec fn spec_turn(self) -> Color {
        self.turn
    }

    /// The agent playing White.
    pub closed spec fn spec_player_white(self) -> T1 {
        self.player_white
    }

    /// The agent playing Black.
    pub closed spec fn spec_player_black(self) -> T2 {
        self.player_black
    }

    /// Well-formedness: the board is well formed and the turn tracker
    /// mirrors the board's side to move.
    pub open spec fn inv(self) -> bool {
        &&& self.spec_board().inv()
        &&& self.spec_turn() == self.spec_board().spec_side_to_move()
    }

    /// Pair two agents with an empty board, White to move.
    pub fn new(player_white: T1, player_black: T2) -> (r: Organizer<T1, T2>)
        ensures
            r.inv(),
            r.spec_board().is_initial(),
            r.spec_player_white() == player_white,
            r.spec_player_black() == player_black,
    {
        Organizer { player_white, player_black, board: Board::new(), turn: Color::White }
    }

    /// Fresh empty board and turn tracker; the agents stay.
    pub fn reset(&mut self)
        ensures
            final(self).inv(),
            final(self).spec_board().is_initial(),
            final(self).spec_player_white() == old(self).spec_player_white(),
            final(self).spec_player_black() == old(self).spec_player_black(),
    {
        self.board = Board::new();
        self.turn = Color::White;
    }

    /// Alternate the two agents' moves until the board is terminal, then
    /// let both observe the final board.
    pub fn start(&mut self)
        requires
            old(self).inv(),
        ensures
            final(self).inv(),
            final(self).spec_board().spec_status() != BoardStatus::Ongoing,
            final(self).spec_player_white() == old(self).spec_player_white(),
            final(self).spec_player_black() == old(self).spec_player_black(),
    {
        let ghost pw = self.player_white;
        let ghost pb = self.player_black;
        let mut status = self.board.status();
        proof {
            lemma_pop_up_to_bound(self.board.spec_combined(), 16);
        }
        while status == BoardStatus::Ongoing
            invariant
                self.inv(),
                status == self.spec_board().spec_status(),
                popcount(self.spec_board().spec_combined()) <= 64,
                self.spec_player_white() == pw,
                self.spec_player_black() == pb,
            decreases 64 - popcount(self.spec_board().spec_combined()),
        {
            let action = match self.turn {
                Color::White => self.player_white.step(&self.board),
                Color::Black => self.player_black.step(&self.board),
            };
            let _ = self.board.step(action);
            self.turn = self.turn.opposite();
            proof {
                lemma_pop_up_to_bound(self.board.spec_combined(), 16);
            }
            status = self.board.status();
        }
        self.player_white.end(&self.board);
        self.player_black.end(&self.board);
    }
}

} // verus!
