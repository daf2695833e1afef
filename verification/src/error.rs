//! The ways in which a command can be refused.

use vstd::prelude::*;

verus! {

/// Why a command was refused. A refused command leaves the game untouched.
#[derive(Clone, Copy, Debug, PartialEq, Eq, Structural)]
pub enum GameError {
    /// The chosen category already holds a committed score.
    AlreadyFilled,
    /// A die index or a category index lies outside its collection.
    IndexOutOfRange,
    /// A roll was requested although no roll is left in this turn.
    InvalidRoll,
}

} // verus!
