//! A rules engine for the board game Go: board state, chain connectivity,
//! liberty counting, capture resolution, suicide prevention, and the
//! single-step positional ko rule.

pub mod board;
pub mod coords;
pub mod flood;
pub mod game;
pub mod laws;
pub mod moves;
pub mod text;
pub mod stone;

pub use board::Board;
pub use coords::CoordSet;
pub use game::Game;
pub use stone::Stone;
