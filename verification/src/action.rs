use vstd::prelude::*;

verus! {

/// An opaque handle to a column index (0..16); the only way to ask a
/// `Board` for a move. Its view is the wrapped index.
#[derive(Clone, Copy, Debug, PartialEq, Eq, Structural)]
pub struct Action(u8);

impl View for Action {
    type V = u8;

    closed spec fn view(&self) -> u8 {
        self.0
    }
}

impl Action {
    /// Wrap a column index.
    pub fn new(pos: u8) -> (r: Action)
        ensures
            r@ == pos,
    {
        Action(pos)
    }

    /// The wrapped column index.
    pub fn position(&self) -> (r: u8)
        ensures
            r == self@,
    {
        self.0
    }
}

} // verus!
