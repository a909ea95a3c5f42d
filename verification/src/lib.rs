//! Game rules of the "Bloatware" top-down shooter: the session state machine,
//! chunk streaming of the procedural world, the level map reader, and the
//! player's input and animation rules.
use vstd::prelude::*;

pub mod audio;
pub mod chunk;
pub mod debug;
pub mod enemy;
pub mod game;
pub mod level;
pub mod player;
pub mod random;

verus! {

} // verus!
