use vstd::prelude::*;

verus! {

/// The two players' colors; White moves first.
#[derive(Clone, Copy, Debug, PartialEq, Eq, Structural)]
pub enum Color {
    White,
    Black,
}

impl Color {
    /// The color that moves after this one.
    pub open spec fn spec_opposite(self) -> Color {
        match self {
            Color::White => Color::Black,
            Color::Black => Color::White,
        }
    }

    /// The index of this color's grid: 0 for White, 1 for Black.
    pub fn to_index(&self) -> (r: usize)
        ensures
            r == (if self is White {
                0int
            } else {
                1int
            }),
    {
        match self {
            Color::White => 0,
            Color::Black => 1,
        }
    }

    /// The color that moves after this one.
    pub fn opposite(&self) -> (r: Color)
        ensures
            r == self.spec_opposite(),
    {
        match self {
            Color::White => Color::Black,
            Color::Black => Color::White,
        }
    }
}

} // verus!
