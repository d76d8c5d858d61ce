//! A Score Four ("connect four in 3-D") rules engine: a 4x4x4 lattice into
//! which two players alternately drop beads, each bead falling to the lowest
//! free level of one of 16 columns. The board is kept as one 64-bit mask per
//! color, wins are detected by testing the fixed set of four-in-a-row line
//! masks, and two simple agents (win-seeking random and flat Monte-Carlo)
//! play on top of the engine.

pub mod action;
pub mod bitboard;
pub mod board;
pub mod color;
pub mod organizer;
pub mod player;

pub use crate::action::Action;
pub use crate::bitboard::BitBoard;
pub use crate::board::Board;
pub use crate::board::BoardStatus;
pub use crate::board::PutError;
pub use crate::color::Color;
pub use crate::organizer::Organizer;
pub use crate::player::Player;
pub use crate::player::PlayerMC;
pub use crate::player::PlayerRandom;
