use vstd::prelude::*;

verus! {

/// One color's occupancy of the 4x4x4 lattice, packed into a `u64`.
///
/// The cell at column `pos` (0..16) and level `lvl` (0..4, level 0 at the
/// bottom) is bit `pos + 16 * lvl`: each level occupies one 16-bit plane,
/// and within a plane the 16 columns are a 4x4 footprint, column
/// `x + 4 * y` standing at coordinates `(x, y)`.
#[derive(Clone, Copy, Debug, PartialEq, Eq, Structural)]
pub struct BitBoard(pub u64);

/// Whether bit `i` of `b` is set.
pub open spec fn bit(b: u64, i: u64) -> bool {
    (b >> i) & 1 == 1
}

/// Whether the cell at column `pos`, level `lvl` is occupied in `b`.
pub open spec fn cell(b: u64, pos: u64, lvl: u64) -> bool {
    bit(b, (pos + 16 * lvl) as u64)
}

/// The mask holding one bit per level at column `pos`: the full vertical
/// line through that column.
pub open spec fn col_mask(pos: u64) -> u64 {
    0x0001_0001_0001_0001u64 << pos
}

/// How many of the four levels of column `pos` are occupied in `b`.
pub open spec fn col_count(b: u64, pos: u64) -> int {
    (if cell(b, pos, 0) { 1int } else { 0int })
        + (if cell(b, pos, 1) { 1int } else { 0int })
        + (if cell(b, pos, 2) { 1int } else { 0int })
        + (if cell(b, pos, 3) { 1int } else { 0int })
}

/// Whether every bit of the line mask `m` is set in `b`.
pub open spec fn masked(b: u64, m: u64) -> bool {
    b & m == m
}

/// The four cells of one row: level `level`, footprint coordinate `y`
/// fixed, `x` running over `0 .. 4`.
pub open spec fn row_mask(level: u64, y: u64) -> u64 {
    0xfu64 << ((16 * level + 4 * y) as u64)
}

/// The four cells of one in-plane column: level `level`, footprint
/// coordinate `x` fixed, `y` running over `0 .. 4`.
pub open spec fn column_mask(level: u64, x: u64) -> u64 {
    0x1111u64 << ((16 * level + x) as u64)
}

/// One of the two main diagonals of the 4x4 footprint at level `level`
/// (`i` is `0` or `1`, picking the orientation).
pub open spec fn level_diag_mask(level: u64, i: u64) -> u64 {
    (if i == 0 {
        0x8421u64
    } else {
        0x1248u64
    }) << ((16 * level) as u64)
}

/// A diagonal in the vertical plane of fixed footprint coordinate `y`:
/// `x` and the level move together (`i == 0`) or against each other
/// (`i == 1`).
pub open spec fn row_diag_mask(y: u64, i: u64) -> u64 {
    (if i == 0 {
        0x0008_0004_0002_0001u64
    } else {
        0x0001_0002_0004_0008u64
    }) << ((4 * y) as u64)
}

/// A diagonal in the vertical plane of fixed footprint coordinate `x`:
/// `y` and the level move together (`i == 0`) or against each other
/// (`i == 1`).
pub open spec fn column_diag_mask(x: u64, i: u64) -> u64 {
    (if i == 0 {
        0x1000_0100_0010_0001u64
    } else {
        0x0001_0010_0100_1000u64
    }) << x
}

/// One of the four space diagonals of the cube, joining opposite corners
/// through all four levels.
pub open spec fn space_diag_mask(i: u64) -> u64 {
    if i == 0 {
        0x8000_0400_0020_0001u64
    } else if i == 1 {
        0x0001_0020_0400_8000u64
    } else if i == 2 {
        0x1000_0200_0040_0008u64
    } else {
        0x0008_0040_0200_1000u64
    }
}

/// Some row of some level is fully occupied in `b`.
pub open spec fn has_row_line(b: u64) -> bool {
    exists|l: u64, y: u64| l < 4 && y < 4 && masked(b, #[trigger] row_mask(l, y))
}

/// Some in-plane column of some level is fully occupied in `b`.
pub open spec fn has_column_line(b: u64) -> bool {
    exists|l: u64, x: u64| l < 4 && x < 4 && masked(b, #[trigger] column_mask(l, x))
}

/// Some column holds beads on all four levels in `b`.
pub open spec fn has_stack_line(b: u64) -> bool {
    exists|p: u64| p < 16 && masked(b, #[trigger] col_mask(p))
}

/// Some level holds a fully occupied footprint diagonal in `b`.
pub open spec fn has_level_diag_line(b: u64) -> bool {
    exists|l: u64, i: u64| l < 4 && i < 2 && masked(b, #[trigger] level_diag_mask(l, i))
}

/// Some vertical plane of fixed `y` holds a fully occupied diagonal in `b`.
pub open spec fn has_row_diag_line(b: u64) -> bool {
    exists|y: u64, i: u64| y < 4 && i < 2 && masked(b, #[trigger] row_diag_mask(y, i))
}

/// Some vertical plane of fixed `x` holds a fully occupied diagonal in `b`.
pub open spec fn has_column_diag_line(b: u64) -> bool {
    exists|x: u64, i: u64| x < 4 && i < 2 && masked(b, #[trigger] column_diag_mask(x, i))
}

/// Some space diagonal of the cube is fully occupied in `b`.
pub open spec fn has_space_diag_line(b: u64) -> bool {
    exists|i: u64| i < 4 && masked(b, #[trigger] space_diag_mask(i))
}

/// Some diagonal of any of the four diagonal families is fully occupied
/// in `b`.
pub open spec fn has_diagonal_line(b: u64) -> bool {
    has_level_diag_line(b) || has_row_diag_line(b) || has_column_diag_line(b)
        || has_space_diag_line(b)
}

/// `b` contains at least one complete four-in-a-row line of any of the
/// recognized geometries: rows, in-plane columns, vertical stacks,
/// in-level diagonals, cross-level diagonals, and space diagonals.
pub open spec fn has_line(b: u64) -> bool {
    has_row_line(b) || has_column_line(b) || has_stack_line(b) || has_diagonal_line(b)
}

/// The number of occupied cells among columns `0 .. n` of `b`.
pub open spec fn pop_up_to(b: u64, n: int) -> int
    decreases n,
{
    if n <= 0 {
        0
    } else {
        pop_up_to(b, n - 1) + col_count(b, (n - 1) as u64)
    }
}

/// The total number of occupied cells of `b`: every one of the 64 bits
/// lies in exactly one of the 16 columns.
pub open spec fn popcount(b: u64) -> int {
    pop_up_to(b, 16)
}

/// Within column `p` of `b`, no occupied cell sits on an empty one.
pub open spec fn col_gravity(b: u64, p: u64) -> bool {
    &&& cell(b, p, 1) ==> cell(b, p, 0)
    &&& cell(b, p, 2) ==> cell(b, p, 1)
    &&& cell(b, p, 3) ==> cell(b, p, 2)
}

/// Beads stack from level 0 upward with no gaps, in every column of `b`.
pub open spec fn gravity(b: u64) -> bool {
    forall|p: u64| p < 16 ==> #[trigger] col_gravity(b, p)
}

/// The columns of `0 .. n` that still have room, in increasing order.
pub open spec fn legal_cols_up_to(b: u64, n: int) -> Seq<u8>
    decreases n,
{
    if n <= 0 {
        Seq::empty()
    } else if col_count(b, (n - 1) as u64) < 4 {
        legal_cols_up_to(b, n - 1).push((n - 1) as u8)
    } else {
        legal_cols_up_to(b, n - 1)
    }
}

/// The columns of the board that still have room, in increasing order.
pub open spec fn legal_cols(b: u64) -> Seq<u8> {
    legal_cols_up_to(b, 16)
}

impl BitBoard {
    /// Construct a bitboard from a raw 64-bit mask.
    pub fn new(b: u64) -> (r: BitBoard)
        ensures
            r.0 == b,
    {
        BitBoard(b)
    }

    /// The mask of the full vertical line through column `pos`.
    pub fn line_at_pos(pos: u8) -> (r: BitBoard)
        requires
            pos < 16,
        ensures
            r.0 == col_mask(pos as u64),
    {
        BitBoard(0x0001_0001_0001_0001u64 << pos)
    }

    /// How many levels of column `pos` are occupied: both the number of
    /// beads stacked in that column and the level the next bead would
    /// fall to.
    pub fn get_level_at(&self, pos: u8) -> (r: u8)
        requires
            pos < 16,
        ensures
            r == col_count(self.0, pos as u64),
    {
        let shifted: u64 = self.0 >> pos;
        proof {
            assert((shifted & 1) <= 1 && ((shifted >> 16) & 1) <= 1 && ((shifted >> 32) & 1) <= 1
                && ((shifted >> 48) & 1) <= 1) by (bit_vector);
        }
        let r: u8 = ((shifted & 1) + ((shifted >> 16) & 1) + ((shifted >> 32) & 1) + ((shifted
            >> 48) & 1)) as u8;
        proof {
            let b = self.0;
            let p = pos as u64;
            assert(((b >> p) & 1) + (((b >> p) >> 16) & 1) + (((b >> p) >> 32) & 1) + (((b >> p)
                >> 48) & 1) == (if (b >> p) & 1 == 1 {
                1int
            } else {
                0int
            }) + (if (b >> ((p + 16) as u64)) & 1 == 1 {
                1int
            } else {
                0int
            }) + (if (b >> ((p + 32) as u64)) & 1 == 1 {
                1int
            } else {
                0int
            }) + (if (b >> ((p + 48) as u64)) & 1 == 1 {
                1int
            } else {
                0int
            })) by (bit_vector)
                requires
                    p < 16,
            ;
        }
        r
    }

    /// The total number of beads on this bitboard.
    pub fn popcnt(&self) -> (r: u32)
        ensures
            r == popcount(self.0),
            r <= 64,
    {
        let mut total: u32 = 0;
        let mut pos: u8 = 0;
        while pos < 16
            invariant
                pos <= 16,
                total == pop_up_to(self.0, pos as int),
                total <= 4 * pos,
            decreases 16 - pos,
        {
            total = total + self.get_level_at(pos) as u32;
            pos = pos + 1;
        }
        total
    }

    /// Whether some row of some level is fully occupied.
    pub fn row_lined(&self) -> (r: bool)
        ensures
            r == has_row_line(self.0),
    {
        let mut level: u64 = 0;
        while level < 4
            invariant
                level <= 4,
                forall|l: u64, y: u64| l < level && y < 4 ==> !masked(self.0, #[trigger] row_mask(l, y)),
            decreases 4 - level,
        {
            let mut y: u64 = 0;
            while y < 4
                invariant
                    level < 4,
                    y <= 4,
                    forall|l2: u64, y2: u64|
                        l2 < level && y2 < 4 ==> !masked(self.0, #[trigger] row_mask(l2, y2)),
                    forall|y2: u64| y2 < y ==> !masked(self.0, #[trigger] row_mask(level, y2)),
                decreases 4 - y,
            {
                let mask: u64 = 0xfu64 << (16 * level + 4 * y);
                if self.0 & mask == mask {
                    assert(masked(self.0, row_mask(level, y)));
                    return true;
                }
                y = y + 1;
            }
            level = level + 1;
        }
        false
    }

    /// Whether some in-plane column of some level is fully occupied.
    pub fn column_lined(&self) -> (r: bool)
        ensures
            r == has_column_line(self.0),
    {
        let mut level: u64 = 0;
        while level < 4
            invariant
                level <= 4,
                forall|l: u64, x: u64|
                    l < level && x < 4 ==> !masked(self.0, #[trigger] column_mask(l, x)),
            decreases 4 - level,
        {
            let mut x: u64 = 0;
            while x < 4
                invariant
                    level < 4,
                    x <= 4,
                    forall|l2: u64, x2: u64|
                        l2 < level && x2 < 4 ==> !masked(self.0, #[trigger] column_mask(l2, x2)),
                    forall|x2: u64| x2 < x ==> !masked(self.0, #[trigger] column_mask(level, x2)),
                decreases 4 - x,
            {
                let mask: u64 = 0x1111u64 << (16 * level + x);
                if self.0 & mask == mask {
                    assert(masked(self.0, column_mask(level, x)));
                    return true;
                }
                x = x + 1;
            }
            level = level + 1;
        }
        false
    }

    /// Whether some column holds beads on all four levels.
    pub fn level_lined(&self) -> (r: bool)
        ensures
            r == has_stack_line(self.0),
    {
        let mut pos: u64 = 0;
        while pos < 16
            invariant
                pos <= 16,
                forall|p: u64| p < pos ==> !masked(self.0, #[trigger] col_mask(p)),
            decreases 16 - pos,
        {
            let mask: u64 = 0x0001_0001_0001_0001u64 << pos;
            if self.0 & mask == mask {
                assert(masked(self.0, col_mask(pos)));
                return true;
            }
            pos = pos + 1;
        }
        false
    }

    /// Whether some in-level or cross-level diagonal is fully occupied.
    fn diagonal_2d_lined(&self) -> (r: bool)
        ensures
            r == (has_level_diag_line(self.0) || has_row_diag_line(self.0)
                || has_column_diag_line(self.0)),
    {
        let mut level: u64 = 0;
        while level < 4
            invariant
                level <= 4,
                forall|l: u64, i: u64|
                    l < level && i < 2 ==> !masked(self.0, #[trigger] level_diag_mask(l, i)),
            decreases 4 - level,
        {
            let mut i: u64 = 0;
            while i < 2
                invariant
                    level < 4,
                    i <= 2,
                    forall|l2: u64, i2: u64|
                        l2 < level && i2 < 2 ==> !masked(self.0, #[trigger] level_diag_mask(l2, i2)),
                    forall|i2: u64| i2 < i ==> !masked(self.0, #[trigger] level_diag_mask(level, i2)),
                decreases 2 - i,
            {
                let base: u64 = if i == 0 {
                    0x8421u64
                } else {
                    0x1248u64
                };
                let mask: u64 = base << (16 * level);
                if self.0 & mask == mask {
                    assert(masked(self.0, level_diag_mask(level, i)));
                    return true;
                }
                i = i + 1;
            }
            level = level + 1;
        }
        let mut y: u64 = 0;
        while y < 4
            invariant
                y <= 4,
                !has_level_diag_line(self.0),
                forall|y2: u64, i: u64|
                    y2 < y && i < 2 ==> !masked(self.0, #[trigger] row_diag_mask(y2, i)),
            decreases 4 - y,
        {
            let mut i: u64 = 0;
            while i < 2
                invariant
                    y < 4,
                    i <= 2,
                    !has_level_diag_line(self.0),
                    forall|y2: u64, i2: u64|
                        y2 < y && i2 < 2 ==> !masked(self.0, #[trigger] row_diag_mask(y2, i2)),
                    forall|i2: u64| i2 < i ==> !masked(self.0, #[trigger] row_diag_mask(y, i2)),
                decreases 2 - i,
            {
                let base: u64 = if i == 0 {
                    0x0008_0004_0002_0001u64
                } else {
                    0x0001_0002_0004_0008u64
                };
                let mask: u64 = base << (4 * y);
                if self.0 & mask == mask {
                    assert(masked(self.0, row_diag_mask(y, i)));
                    return true;
                }
                i = i + 1;
            }
            y = y + 1;
        }
        let mut x: u64 = 0;
        while x < 4
            invariant
                x <= 4,
                !has_level_diag_line(self.0),
                !has_row_diag_line(self.0),
                forall|x2: u64, i: u64|
                    x2 < x && i < 2 ==> !masked(self.0, #[trigger] column_diag_mask(x2, i)),
            decreases 4 - x,
        {
            let mut i: u64 = 0;
            while i < 2
                invariant
                    x < 4,
                    i <= 2,
                    !has_level_diag_line(self.0),
                    !has_row_diag_line(self.0),
                    forall|x2: u64, i2: u64|
                        x2 < x && i2 < 2 ==> !masked(self.0, #[trigger] column_diag_mask(x2, i2)),
                    forall|i2: u64| i2 < i ==> !masked(self.0, #[trigger] column_diag_mask(x, i2)),
                decreases 2 - i,
            {
                let base: u64 = if i == 0 {
                    0x1000_0100_0010_0001u64
                } else {
                    0x0001_0010_0100_1000u64
                };
                let mask: u64 = base << x;
                if self.0 & mask == mask {
                    assert(masked(self.0, column_diag_mask(x, i)));
                    return true;
                }
                i = i + 1;
            }
            x = x + 1;
        }
        false
    }

    /// Whether some space diagonal of the cube is fully occupied.
    fn diagonal_3d_lined(&self) -> (r: bool)
        ensures
            r == has_space_diag_line(self.0),
    {
        let mut i: u64 = 0;
        while i < 4
            invariant
                i <= 4,
                forall|i2: u64| i2 < i ==> !masked(self.0, #[trigger] space_diag_mask(i2)),
            decreases 4 - i,
        {
            let mask: u64 = if i == 0 {
                0x8000_0400_0020_0001u64
            } else if i == 1 {
                0x0001_0020_0400_8000u64
            } else if i == 2 {
                0x1000_0200_0040_0008u64
            } else {
                0x0008_0040_0200_1000u64
            };
            if self.0 & mask == mask {
                assert(masked(self.0, space_diag_mask(i)));
                return true;
            }
            i = i + 1;
        }
        false
    }

    /// Whether some diagonal of any family is fully occupied.
    fn diagonal_lined(&self) -> (r: bool)
        ensures
            r == has_diagonal_line(self.0),
    {
        self.diagonal_2d_lined() || self.diagonal_3d_lined()
    }

    /// Whether this color's grid contains at least one complete
    /// four-in-a-row line of any recognized geometry.
    pub fn lined(&self) -> (r: bool)
        ensures
            r == has_line(self.0),
    {
        self.row_lined() || self.column_lined() || self.level_lined() || self.diagonal_lined()
    }
}

/// The empty grid holds no bead and no line.
pub proof fn lemma_empty_grid()
    ensures
        forall|p: u64| #[trigger] col_count(0, p) == 0,
        popcount(0) == 0,
        !has_line(0),
        gravity(0),
{
    assert(forall|i: u64| (0u64 >> i) & 1 != 1) by (bit_vector);
    assert(forall|p: u64| #[trigger] col_count(0, p) == 0);
    reveal_with_fuel(pop_up_to, 17);
    assert(popcount(0) == 0);
    assert(forall|m: u64| 0u64 & m == 0) by (bit_vector);
    assert(forall|l: u64, y: u64| l < 4 && y < 4 ==> #[trigger] row_mask(l, y) != 0)
        by (bit_vector);
    assert(forall|l: u64, x: u64| l < 4 && x < 4 ==> #[trigger] column_mask(l, x) != 0)
        by (bit_vector);
    assert(forall|p: u64| p < 16 ==> #[trigger] col_mask(p) != 0) by (bit_vector);
    assert(forall|l: u64, i: u64| l < 4 && i < 2 ==> #[trigger] level_diag_mask(l, i) != 0)
        by (bit_vector);
    assert(forall|y: u64, i: u64| y < 4 && i < 2 ==> #[trigger] row_diag_mask(y, i) != 0)
        by (bit_vector);
    assert(forall|x: u64, i: u64| x < 4 && i < 2 ==> #[trigger] column_diag_mask(x, i) != 0)
        by (bit_vector);
    assert(forall|i: u64| i < 4 ==> #[trigger] space_diag_mask(i) != 0) by (bit_vector);
}

/// At most four beads fit in each column, so at most `4 * n` in the first
/// `n` columns, with equality exactly when each of them is full.
pub proof fn lemma_pop_up_to_bound(b: u64, n: int)
    requires
        0 <= n <= 16,
    ensures
        0 <= pop_up_to(b, n) <= 4 * n,
        pop_up_to(b, n) == 4 * n <==> (forall|p: u64| p < n ==> #[trigger] col_count(b, p) == 4),
    decreases n,
{
    if n > 0 {
        lemma_pop_up_to_bound(b, n - 1);
        if pop_up_to(b, n) == 4 * n {
            assert forall|p: u64| p < n implies #[trigger] col_count(b, p) == 4 by {
                if p < n - 1 {
                } else {
                    assert(p == (n - 1) as u64);
                }
            }
        }
        if forall|p: u64| p < n ==> #[trigger] col_count(b, p) == 4 {
            assert(forall|p: u64| p < n - 1 ==> #[trigger] col_count(b, p) == 4);
            assert(col_count(b, (n - 1) as u64) == 4);
        }
    }
}

/// A board that is not yet full has a column with room to spare.
pub proof fn lemma_room_left(b: u64)
    requires
        popcount(b) < 64,
    ensures
        exists|p: u64| p < 16 && #[trigger] col_count(b, p) < 4,
{
    lemma_pop_up_to_bound(b, 16);
    assert(!(forall|p: u64| p < 16 ==> #[trigger] col_count(b, p) == 4));
    let p = choose|p: u64| !(p < 16 ==> #[trigger] col_count(b, p) == 4);
    assert(p < 16 && col_count(b, p) < 4);
}

/// A cell of a union of grids is occupied in the union iff it is occupied
/// in one of them.
pub proof fn lemma_cell_or(b: u64, m: u64, pos: u64, lvl: u64)
    ensures
        cell(b | m, pos, lvl) == (cell(b, pos, lvl) || cell(m, pos, lvl)),
{
    let i = (pos + 16 * lvl) as u64;
    assert((((b | m) >> i) & 1 == 1) == (((b >> i) & 1 == 1) || ((m >> i) & 1 == 1)))
        by (bit_vector);
}

/// The grid holding the single bit `j` occupies exactly the cell whose
/// index is `j`.
pub proof fn lemma_cell_single(j: u64, pos: u64, lvl: u64)
    requires
        j < 64,
        pos < 16,
        lvl < 4,
    ensures
        cell(1u64 << j, pos, lvl) == (j == pos + 16 * lvl),
{
    let i = (pos + 16 * lvl) as u64;
    assert((((1u64 << j) >> i) & 1 == 1) == (i == j)) by (bit_vector)
        requires
            i < 64 && j < 64,
    ;
}

/// Setting the bit of column `pos`, level `lvl` occupies exactly that cell
/// and leaves every other cell as it was.
pub proof fn lemma_cell_put(b: u64, pos: u64, lvl: u64)
    requires
        pos < 16,
        lvl < 4,
    ensures
        forall|p: u64, l: u64|
            p < 16 && l < 4 ==> #[trigger] cell(b | (1u64 << ((pos + 16 * lvl) as u64)), p, l) == (
            cell(b, p, l) || (p == pos && l == lvl)),
{
    let j = (pos + 16 * lvl) as u64;
    assert forall|p: u64, l: u64|
        p < 16 && l < 4 implies #[trigger] cell(b | (1u64 << j), p, l) == (cell(b, p, l) || (p
        == pos && l == lvl)) by {
        lemma_cell_or(b, 1u64 << j, p, l);
        lemma_cell_single(j, p, l);
    }
}

/// Setting the bit of column `pos`, level `lvl` (a cell that was free)
/// raises that column's count by one and no other column's.
pub proof fn lemma_col_count_put(b: u64, pos: u64, lvl: u64)
    requires
        pos < 16,
        lvl < 4,
        !cell(b, pos, lvl),
    ensures
        forall|p: u64|
            p < 16 && p != pos ==> #[trigger] col_count(
                b | (1u64 << ((pos + 16 * lvl) as u64)),
                p,
            ) == col_count(b, p),
        col_count(b | (1u64 << ((pos + 16 * lvl) as u64)), pos) == col_count(b, pos) + 1,
{
    lemma_cell_put(b, pos, lvl);
}

/// Filling one free cell raises the bead total of the first `n` columns by
/// one when the cell's column lies among them, else not at all.
pub proof fn lemma_pop_up_to_put(b: u64, pos: u64, lvl: u64, n: int)
    requires
        pos < 16,
        lvl < 4,
        !cell(b, pos, lvl),
        0 <= n <= 16,
    ensures
        pop_up_to(b | (1u64 << ((pos + 16 * lvl) as u64)), n) == pop_up_to(b, n) + (if pos < n {
            1int
        } else {
            0int
        }),
    decreases n,
{
    lemma_col_count_put(b, pos, lvl);
    if n > 0 {
        lemma_pop_up_to_put(b, pos, lvl, n - 1);
    }
}

/// Filling one free cell raises the bead total by exactly one.
pub proof fn lemma_popcount_put(b: u64, pos: u64, lvl: u64)
    requires
        pos < 16,
        lvl < 4,
        !cell(b, pos, lvl),
    ensures
        popcount(b | (1u64 << ((pos + 16 * lvl) as u64))) == popcount(b) + 1,
{
    lemma_pop_up_to_put(b, pos, lvl, 16);
}

/// Under gravity, a column's count is also the level its next bead falls
/// to: the cell right above the stacked beads is free.
pub proof fn lemma_next_level_free(b: u64, pos: u64)
    requires
        gravity(b),
        pos < 16,
        col_count(b, pos) < 4,
    ensures
        !cell(b, pos, col_count(b, pos) as u64),
        forall|l: u64| l < col_count(b, pos) ==> #[trigger] cell(b, pos, l),
{
    assert(col_gravity(b, pos));
}

/// Dropping a bead where gravity sends it keeps gravity intact.
pub proof fn lemma_gravity_put(b: u64, pos: u64)
    requires
        gravity(b),
        pos < 16,
        col_count(b, pos) < 4,
    ensures
        gravity(b | (1u64 << ((pos + 16 * (col_count(b, pos) as u64)) as u64))),
{
    let lvl = col_count(b, pos) as u64;
    lemma_next_level_free(b, pos);
    lemma_cell_put(b, pos, lvl);
    let bb = b | (1u64 << ((pos + 16 * lvl) as u64));
    assert forall|p: u64| p < 16 implies #[trigger] col_gravity(bb, p) by {
        assert(col_gravity(b, p));
    }
}

/// The playable columns among `0 .. n` after a bead drops at `pos`: the
/// list loses `pos` when the bead was its column's fourth, and is
/// otherwise unchanged.
pub proof fn lemma_legal_cols_put(b: u64, pos: u64, n: int)
    requires
        gravity(b),
        pos < 16,
        col_count(b, pos) < 4,
        0 <= n <= 16,
    ensures
        legal_cols_up_to(b | (1u64 << ((pos + 16 * (col_count(b, pos) as u64)) as u64)), n).len()
            == legal_cols_up_to(b, n).len() - (if pos < n && col_count(b, pos) == 3 {
            1int
        } else {
            0int
        }),
    decreases n,
{
    let lvl = col_count(b, pos) as u64;
    lemma_next_level_free(b, pos);
    lemma_col_count_put(b, pos, lvl);
    if n > 0 {
        lemma_legal_cols_put(b, pos, n - 1);
    }
}

/// What the playable-column list holds: exactly the columns below `n`
/// whose count is under four, each below `n`, in strictly increasing
/// order; when all counts are under four the list is full.
pub proof fn lemma_legal_cols_props(b: u64, n: int)
    requires
        0 <= n <= 16,
    ensures
        legal_cols_up_to(b, n).len() <= n,
        forall|k: int|
            0 <= k < legal_cols_up_to(b, n).len() ==> (#[trigger] legal_cols_up_to(b, n)[k]) < n
                && col_count(b, legal_cols_up_to(b, n)[k] as u64) < 4,
        forall|k1: int, k2: int|
            0 <= k1 < k2 < legal_cols_up_to(b, n).len() ==> #[trigger] legal_cols_up_to(b, n)[k1]
                < #[trigger] legal_cols_up_to(b, n)[k2],
        forall|p: u64|
            p < n && #[trigger] col_count(b, p) < 4 ==> legal_cols_up_to(b, n).contains(p as u8),
        (forall|p: u64| p < n ==> #[trigger] col_count(b, p) < 4) ==> legal_cols_up_to(b, n).len()
            == n,
    decreases n,
{
    if n > 0 {
        lemma_legal_cols_props(b, n - 1);
        assert forall|p: u64|
            p < n && #[trigger] col_count(b, p) < 4 implies legal_cols_up_to(b, n).contains(
            p as u8,
        ) by {
            if p < n - 1 {
                let s = legal_cols_up_to(b, n - 1);
                assert(s.contains(p as u8));
                let k = choose|k: int| 0 <= k < s.len() && s[k] == p as u8;
                assert(legal_cols_up_to(b, n)[k] == p as u8);
            } else {
                let s = legal_cols_up_to(b, n);
                assert(s[s.len() - 1] == (n - 1) as u8);
            }
        }
    }
}

} // verus!
