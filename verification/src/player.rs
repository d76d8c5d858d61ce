use vstd::prelude::*;

use crate::action::Action;
use crate::bitboard::{col_count, legal_cols, lemma_legal_cols_props, lemma_pop_up_to_bound,
    popcount};
use crate::board::{Board, BoardStatus, lemma_ongoing_has_actions};
use crate::color::Color;

verus! {

/// A column that can legally receive a bead on `b`: in range and not yet
/// holding four beads.
pub open spec fn is_legal_col(b: Board, pos: u64) -> bool {
    pos < 16 && col_count(b.spec_combined(), pos) < 4
}

/// Dropping a bead at `pos` on `b` is legal and leaves the board with
/// status `goal`.
pub open spec fn wins_at(b: Board, pos: u64, goal: BoardStatus) -> bool {
    is_legal_col(b, pos) && b.status_after(pos) == goal
}

/// A decision agent: asked for a legal move on an ongoing board, and told
/// of the final board when the game ends.
pub trait Player: Sized {
    /// Construct an agent that plays `color`.
    fn new(color: Color) -> Self;

    /// Choose a legal action for an ongoing board.
    fn step(&self, board: &Board) -> (a: Action)
        requires
            board.inv(),
            board.spec_status() == BoardStatus::Ongoing,
        ensures
            is_legal_col(*board, a@ as u64),
    ;

    /// Observe the final board once the game is over.
    fn end(&self, board: &Board);
}

/// Relies on rand::random_range over `0 .. n`: a uniformly drawn value of
/// that range, which is nonempty since `n > 0`, hence a value below `n`.
#[verifier::external_body]
fn random_below(n: usize) -> (r: usize)
    requires
        n > 0,
    ensures
        r < n,
{
    rand::random_range(0..n)
}

/// The win-seeking random policy: the first column (in increasing order)
/// whose drop immediately reaches `goal`, if there is one; otherwise a
/// uniformly random playable column.
pub fn random_or_win(board: &Board, goal: BoardStatus) -> (a: Action)
    requires
        board.inv(),
        legal_cols(board.spec_combined()).len() > 0,
    ensures
        is_legal_col(*board, a@ as u64),
        forall|p: u64| p < a@ as u64 ==> !wins_at(*board, p, goal),
        (exists|p: u64| wins_at(*board, p, goal)) ==> wins_at(*board, a@ as u64, goal),
{
    let actions = board.possible_actions();
    let n = actions.len();
    let mut i: usize = 0;
    while i < n
        invariant
            board.inv(),
            n == actions@.len(),
            n == legal_cols(board.spec_combined()).len(),
            0 < n,
            i <= n,
            forall|k: int|
                0 <= k < actions@.len() ==> (#[trigger] actions@[k])@ == legal_cols(
                    board.spec_combined(),
                )[k],
            forall|k: int|
                0 <= k < i ==> !wins_at(*board, (#[trigger] actions@[k])@ as u64, goal),
        decreases n - i,
    {
        proof {
            lemma_legal_cols_props(board.spec_combined(), 16);
        }
        let mut scratch: Board = *board;
        let act = actions[i];
        let _ = scratch.step(act);
        if scratch.status() == goal {
            proof {
                assert(wins_at(*board, act@ as u64, goal));
                assert forall|p: u64| p < act@ as u64 implies !wins_at(*board, p, goal) by {
                    if wins_at(*board, p, goal) {
                        let s = legal_cols(board.spec_combined());
                        assert(s.contains(p as u8));
                        let k = choose|k: int| 0 <= k < s.len() && s[k] == p as u8;
                        assert(actions@[k]@ == p as u8);
                        assert(k < i as int);
                    }
                }
            }
            return act;
        }
        i = i + 1;
    }
    proof {
        lemma_legal_cols_props(board.spec_combined(), 16);
        assert forall|p: u64| !wins_at(*board, p, goal) by {
            if wins_at(*board, p, goal) {
                let s = legal_cols(board.spec_combined());
                assert(s.contains(p as u8));
                let k = choose|k: int| 0 <= k < s.len() && s[k] == p as u8;
                assert(!wins_at(*board, actions@[k]@ as u64, goal));
            }
        }
    }
    let idx = random_below(n);
    let a = actions[idx];
    proof {
        lemma_legal_cols_props(board.spec_combined(), 16);
    }
    a
}

/// Almost random player: it takes an immediate win when one exists, and
/// otherwise moves uniformly at random among the playable columns.
pub struct PlayerRandom {
    color: Color,
    goal: BoardStatus,
}

impl Player for PlayerRandom {
    fn new(color: Color) -> Self {
        PlayerRandom {
            color,
            goal: match color {
                Color::White => BoardStatus::WhiteWin,
                Color::Black => BoardStatus::BlackWin,
            },
        }
    }

    fn step(&self, board: &Board) -> Action {
        proof {
            lemma_ongoing_has_actions(*board);
        }
        random_or_win(board, self.goal)
    }

    fn end(&self, _board: &Board) {
    }
}

/// Flat Monte-Carlo player: every playable column is scored by fixed-count
/// independent rollouts of the win-seeking random policy, and the first
/// column whose score strictly beats every earlier one is played; when no
/// score beats zero, the first playable column is.
pub struct PlayerMC {
    color: Color,
    goal: BoardStatus,
}

impl Player for PlayerMC {
    fn new(color: Color) -> Self {
        PlayerMC {
            color,
            goal: match color {
                Color::White => BoardStatus::WhiteWin,
                Color::Black => BoardStatus::BlackWin,
            },
        }
    }

    fn step(&self, board: &Board) -> Action {
        let actions = board.possible_actions();
        proof {
            lemma_ongoing_has_actions(*board);
            lemma_legal_cols_props(board.spec_combined(), 16);
        }
        let mut ret = actions[0];
        let mut max: isize = 0;
        let mut i: usize = 0;
        while i < actions.len()
            invariant
                board.inv(),
                actions@.len() == legal_cols(board.spec_combined()).len(),
                forall|k: int|
                    0 <= k < actions@.len() ==> (#[trigger] actions@[k])@ == legal_cols(
                        board.spec_combined(),
                    )[k],
                is_legal_col(*board, ret@ as u64),
                i <= actions@.len(),
            decreases actions@.len() - i,
        {
            proof {
                lemma_legal_cols_props(board.spec_combined(), 16);
            }
            let mut scratch: Board = *board;
            let action = actions[i];
            let _ = scratch.step(action);
            let mut score: isize = 0;
            let mut t: usize = 0;
            while t < 50
                invariant
                    scratch.inv(),
                    t <= 50,
                    -(t as int) <= score <= t as int,
                decreases 50 - t,
            {
                let result = self.simulate(&scratch);
                if result == self.goal {
                    score = score + 1;
                } else if result != BoardStatus::Draw {
                    score = score - 1;
                }
                t = t + 1;
            }
            if score > max {
                max = score;
                ret = action;
            }
            i = i + 1;
        }
        ret
    }

    fn end(&self, _board: &Board) {
    }
}

impl PlayerMC {
    /// One independent rollout: play the win-seeking random policy on a
    /// scratch copy until the board is terminal, and report that terminal
    /// status.
    fn simulate(&self, board: &Board) -> (r: BoardStatus)
        requires
            board.inv(),
        ensures
            r != BoardStatus::Ongoing,
    {
        let mut b: Board = *board;
        let mut status = b.status();
        proof {
            lemma_pop_up_to_bound(b.spec_combined(), 16);
        }
        while status == BoardStatus::Ongoing
            invariant
                b.inv(),
                status == b.spec_status(),
                popcount(b.spec_combined()) <= 64,
            decreases 64 - popcount(b.spec_combined()),
        {
            proof {
                lemma_ongoing_has_actions(b);
            }
            let action = random_or_win(&b, self.goal);
            let _ = b.step(action);
            proof {
                lemma_pop_up_to_bound(b.spec_combined(), 16);
            }
            status = b.status();
        }
        status
    }
}

} // verus!
