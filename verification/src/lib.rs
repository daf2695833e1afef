//! Scoring rules and turn structure of a single-player Yahtzee game.
//!
//! The crate holds the dice, the thirteen scoring categories and the
//! controller that sequences rolls, freezes and category commitments. Every
//! executable function carries a contract over a mathematical model of the
//! state it touches; the modules also state, as proof functions, the laws that
//! relate several operations.

pub mod category;
pub mod dice;
pub mod error;
pub mod random;
pub mod rules;
pub mod scorecard;
pub mod turn;
