use vstd::prelude::*;

use crate::action::Action;
use crate::bitboard::{
    BitBoard, col_count, gravity, has_line, legal_cols, legal_cols_up_to, lemma_cell_or,
    lemma_col_count_put, lemma_empty_grid, lemma_gravity_put, lemma_legal_cols_props,
    lemma_legal_cols_put, lemma_next_level_free, lemma_pop_up_to_bound, lemma_popcount_put,
    lemma_room_left, popcount,
};
use crate::color::Color;

verus! {

/// A Score Four board: one bit grid per color, their cached union, and
/// the color to move.
#[derive(Clone, Copy, Debug, PartialEq, Eq, Structural)]
pub struct Board {
    white: BitBoard,
    black: BitBoard,
    combined: BitBoard,
    side_to_move: Color,
}

/// What a board's content amounts to: still playing, a win, or a full
/// board without a line.
#[derive(Clone, Copy, Debug, PartialEq, Eq, Structural)]
pub enum BoardStatus {
    Ongoing,
    WhiteWin,
    BlackWin,
    Draw,
}

/// Why a move was rejected: the column index was out of range, or the
/// column already holds four beads.
#[derive(Clone, Copy, Debug, PartialEq, Eq, Structural)]
pub enum PutError {
    InvalidPosition,
    ColumnFull,
}

impl Board {
    /// White's grid bits.
    pub closed spec fn spec_white(self) -> u64 {
        self.white.0
    }

    /// Black's grid bits.
    pub closed spec fn spec_black(self) -> u64 {
        self.black.0
    }

    /// The given color's grid bits.
    pub open spec fn spec_grid(self, c: Color) -> u64 {
        match c {
            Color::White => self.spec_white(),
            Color::Black => self.spec_black(),
        }
    }

    /// The cached union of the two color grids.
    pub closed spec fn spec_combined(self) -> u64 {
        self.combined.0
    }

    /// The color to move.
    pub closed spec fn spec_side_to_move(self) -> Color {
        self.side_to_move
    }

    /// Well-formedness: the cached union is the union, no cell is claimed
    /// by both colors, and beads stack bottom-up with no gaps.
    pub open spec fn inv(self) -> bool {
        &&& self.spec_combined() == self.spec_white() | self.spec_black()
        &&& self.spec_white() & self.spec_black() == 0
        &&& gravity(self.spec_combined())
    }

    /// The freshly constructed board: empty grids, White to move.
    pub open spec fn is_initial(self) -> bool {
        &&& self.spec_white() == 0
        &&& self.spec_black() == 0
        &&& self.spec_combined() == 0
        &&& self.spec_side_to_move() is White
    }

    /// The status derived from the grids. A grid holding lines of both
    /// colors resolves in White's favor by the check order; a full board
    /// without a line is a draw.
    pub open spec fn spec_status(self) -> BoardStatus {
        if has_line(self.spec_white()) {
            BoardStatus::WhiteWin
        } else if has_line(self.spec_black()) {
            BoardStatus::BlackWin
        } else if popcount(self.spec_combined()) == 64 {
            BoardStatus::Draw
        } else {
            BoardStatus::Ongoing
        }
    }

    /// The bit a bead dropped at `pos` would occupy: column `pos`, at the
    /// lowest free level.
    pub open spec fn put_mask(self, pos: u64) -> u64 {
        1u64 << ((pos + 16 * (col_count(self.spec_combined(), pos) as u64)) as u64)
    }

    /// White's grid after the mover drops a bead at `pos`.
    pub open spec fn white_after(self, pos: u64) -> u64 {
        if self.spec_side_to_move() is White {
            self.spec_white() | self.put_mask(pos)
        } else {
            self.spec_white()
        }
    }

    /// Black's grid after the mover drops a bead at `pos`.
    pub open spec fn black_after(self, pos: u64) -> u64 {
        if self.spec_side_to_move() is Black {
            self.spec_black() | self.put_mask(pos)
        } else {
            self.spec_black()
        }
    }

    /// The union after the mover drops a bead at `pos`.
    pub open spec fn combined_after(self, pos: u64) -> u64 {
        self.spec_combined() | self.put_mask(pos)
    }

    /// The status the board would report after the mover drops a bead at
    /// `pos`.
    pub open spec fn status_after(self, pos: u64) -> BoardStatus {
        if has_line(self.white_after(pos)) {
            BoardStatus::WhiteWin
        } else if has_line(self.black_after(pos)) {
            BoardStatus::BlackWin
        } else if popcount(self.combined_after(pos)) == 64 {
            BoardStatus::Draw
        } else {
            BoardStatus::Ongoing
        }
    }
}

/// Everything a `put` (or `step`) at column `pos` did to the board and
/// returned. A column index past 15 is rejected as `InvalidPosition` and a
/// column already holding four beads as `ColumnFull`, both leaving the
/// board untouched; any other drop succeeds, occupies exactly the lowest
/// free cell of the column in the mover's grid, flips the side to move,
/// and returns the 1-based level the bead landed on.
pub open spec fn put_post(pre: Board, post: Board, pos: u64, r: Result<u8, PutError>) -> bool {
    &&& post.inv()
    &&& pos >= 16 ==> r == Err::<u8, PutError>(PutError::InvalidPosition) && post == pre
    &&& (pos < 16 && col_count(pre.spec_combined(), pos) >= 4) ==> r == Err::<u8, PutError>(
        PutError::ColumnFull,
    ) && post == pre
    &&& (pos < 16 && col_count(pre.spec_combined(), pos) < 4) ==> {
        &&& r == Ok::<u8, PutError>((col_count(pre.spec_combined(), pos) + 1) as u8)
        &&& post.spec_white() == pre.white_after(pos)
        &&& post.spec_black() == pre.black_after(pos)
        &&& post.spec_combined() == pre.combined_after(pos)
        &&& post.spec_side_to_move() == pre.spec_side_to_move().spec_opposite()
        &&& post.spec_status() == pre.status_after(pos)
        &&& forall|q: u64|
            q < 16 ==> col_count(post.spec_combined(), q) == col_count(pre.spec_combined(), q) + (
            if q == pos {
                1int
            } else {
                0int
            })
        &&& popcount(post.spec_combined()) == popcount(pre.spec_combined()) + 1
        &&& legal_cols(post.spec_combined()).len() == legal_cols(pre.spec_combined()).len() - (
        if col_count(pre.spec_combined(), pos) == 3 {
            1int
        } else {
            0int
        })
    }
}

impl Board {
    /// Construct an empty board with White to move; all 16 columns are
    /// playable.
    pub fn new() -> (r: Board)
        ensures
            r.is_initial(),
            r.inv(),
            r.spec_status() == BoardStatus::Ongoing,
            forall|p: u64| p < 16 ==> col_count(r.spec_combined(), p) == 0,
            legal_cols(r.spec_combined()).len() == 16,
    {
        let b = Board {
            white: BitBoard::new(0),
            black: BitBoard::new(0),
            combined: BitBoard::new(0),
            side_to_move: Color::White,
        };
        proof {
            lemma_empty_grid();
            assert(0u64 | 0u64 == 0u64 && 0u64 & 0u64 == 0u64) by (bit_vector);
            lemma_legal_cols_props(0, 16);
        }
        b
    }

    /// The union of the two color grids: on a well-formed board the
    /// cached value is exactly `white | black`.
    pub fn combined(&self) -> (r: BitBoard)
        ensures
            r.0 == self.spec_combined(),
            self.inv() ==> r.0 == (self.spec_white() | self.spec_black()),
    {
        self.combined
    }

    /// The color to move.
    pub fn side_to_move(&self) -> (r: Color)
        ensures
            r == self.spec_side_to_move(),
    {
        self.side_to_move
    }

    /// Drop a bead of the mover's color into column `pos`: it lands on
    /// the lowest free level, whose 1-based height is returned. Rejects an
    /// out-of-range column and a full column without touching the board.
    pub fn put(&mut self, pos: u8) -> (r: Result<u8, PutError>)
        requires
            old(self).inv(),
        ensures
            put_post(*old(self), *final(self), pos as u64, r),
    {
        if pos > 15 {
            return Err(PutError::InvalidPosition);
        }
        let level: u8 = self.combined.get_level_at(pos);
        if level > 3 {
            return Err(PutError::ColumnFull);
        }
        let put_bit: u64 = 1u64 << ((pos as u64) + 16 * (level as u64));
        proof {
            let c0 = self.combined.0;
            let w0 = self.white.0;
            let bl0 = self.black.0;
            let p = pos as u64;
            let lvl = level as u64;
            let j = (p + 16 * lvl) as u64;
            lemma_next_level_free(c0, p);
            lemma_cell_or(w0, bl0, p, lvl);
            assert(((w0 | (1u64 << j)) | bl0) == ((w0 | bl0) | (1u64 << j)) && (w0 | ((1u64 << j)
                | bl0)) == ((w0 | bl0) | (1u64 << j)) && (w0 | (bl0 | (1u64 << j))) == ((w0 | bl0)
                | (1u64 << j))) by (bit_vector);
            assert(((bl0 >> j) & 1 != 1 && w0 & bl0 == 0) ==> ((w0 | (1u64 << j)) & bl0 == 0))
                by (bit_vector)
                requires
                    j < 64,
            ;
            assert(((w0 >> j) & 1 != 1 && w0 & bl0 == 0) ==> (w0 & (bl0 | (1u64 << j)) == 0))
                by (bit_vector)
                requires
                    j < 64,
            ;
            lemma_gravity_put(c0, p);
            lemma_col_count_put(c0, p, lvl);
            lemma_popcount_put(c0, p, lvl);
            lemma_legal_cols_put(c0, p, 16);
        }
        match self.side_to_move {
            Color::White => {
                self.white = BitBoard::new(self.white.0 | put_bit);
            },
            Color::Black => {
                self.black = BitBoard::new(self.black.0 | put_bit);
            },
        }
        self.combined = BitBoard::new(self.white.0 | self.black.0);
        self.side_to_move = self.side_to_move.opposite();
        Ok(level + 1)
    }

    /// Drop a bead at the column the action names; see `put`.
    pub fn step(&mut self, action: Action) -> (r: Result<u8, PutError>)
        requires
            old(self).inv(),
        ensures
            put_post(*old(self), *final(self), action@ as u64, r),
    {
        self.put(action.position())
    }

    /// The terminal classification of the current content: a White line
    /// wins for White (checked first, the defined tie-break), then a
    /// Black line for Black; a full board without a line is a draw;
    /// anything else is still ongoing.
    pub fn status(&self) -> (r: BoardStatus)
        ensures
            r == self.spec_status(),
    {
        if self.white.lined() {
            return BoardStatus::WhiteWin;
        }
        if self.black.lined() {
            return BoardStatus::BlackWin;
        }
        if self.combined.popcnt() == 64 {
            return BoardStatus::Draw;
        }
        BoardStatus::Ongoing
    }

    /// The columns that still have room, in increasing order, as actions.
    pub fn possible_actions(&self) -> (r: Vec<Action>)
        ensures
            r@.len() == legal_cols(self.spec_combined()).len(),
            forall|k: int|
                0 <= k < r@.len() ==> (#[trigger] r@[k])@ == legal_cols(self.spec_combined())[k],
    {
        let mut ret: Vec<Action> = Vec::new();
        let mut pos: u8 = 0;
        while pos < 16
            invariant
                pos <= 16,
                ret@.len() == legal_cols_up_to(self.combined.0, pos as int).len(),
                forall|k: int|
                    0 <= k < ret@.len() ==> (#[trigger] ret@[k])@ == legal_cols_up_to(
                        self.combined.0,
                        pos as int,
                    )[k],
            decreases 16 - pos,
        {
            if self.combined.get_level_at(pos) < 4 {
                ret.push(Action::new(pos));
            }
            pos = pos + 1;
        }
        ret
    }
}

/// An ongoing board always offers a move: some column still has room.
pub proof fn lemma_ongoing_has_actions(b: Board)
    requires
        b.inv(),
        b.spec_status() == BoardStatus::Ongoing,
    ensures
        legal_cols(b.spec_combined()).len() > 0,
{
    lemma_pop_up_to_bound(b.spec_combined(), 16);
    lemma_room_left(b.spec_combined());
    let p = choose|p: u64| p < 16 && #[trigger] col_count(b.spec_combined(), p) < 4;
    lemma_legal_cols_props(b.spec_combined(), 16);
    assert(legal_cols(b.spec_combined()).contains(p as u8));
}

impl Default for Board {
    /// The same empty board `new` constructs.
    fn default() -> (r: Board)
        ensures
            r.is_initial(),
            r.inv(),
    {
        Board::new()
    }
}

} // verus!
