//! The vocabulary a driver loop speaks: what one step of a player produced.

use vstd::prelude::*;

use crate::santorini::Build;
use crate::santorini::Game;
use crate::santorini::Move;
use crate::santorini::PlaceTwo;
use crate::santorini::Victory;

verus! {

/// What one driver step produced: nothing yet (the player is still
/// thinking or waiting for input), or the game advanced into the given
/// phase.
pub enum StepResult {
    NoMove,
    PlaceTwo(Game<PlaceTwo>),
    Move(Game<Move>),
    Build(Game<Build>),
    Victory(Game<Victory>),
}

} // verus!
